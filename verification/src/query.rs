//! Cleaning a query string: which parameters survive, in which order, and how they
//! are written.
use crate::component;
use crate::component::{decode_query_component, encode_query_component};
use crate::filter::{FilterRules, ResolvedFilter};
use crate::params;
use crate::params::{sort_params, Param, QueryParam};
use crate::text;
use vstd::prelude::*;

verus! {

// ---------------------------------------------------------------------------
// Values that identify application state
// ---------------------------------------------------------------------------

/// Whether `c` is an ASCII hexadecimal digit.
pub open spec fn is_hex(c: char) -> bool {
    '0' <= c <= '9' || 'a' <= c <= 'f' || 'A' <= c <= 'F'
}

/// Whether `i` is the position of a dash in a UUID.
pub open spec fn is_dash_place(i: int) -> bool {
    i == 8 || i == 13 || i == 18 || i == 23
}

/// Whether `s` has the form `xxxxxxxx-xxxx-xxxx-xxxx-xxxxxxxxxxxx`.
pub open spec fn is_uuid(s: Seq<char>) -> bool {
    &&& s.len() == 36
    &&& forall|i: int|
        0 <= i < 36 ==> if is_dash_place(i) {
            #[trigger] s[i] == '-'
        } else {
            is_hex(s[i])
        }
}

/// Whether `s` is a run of at least 32 hexadecimal digits.
pub open spec fn is_long_hex(s: Seq<char>) -> bool {
    &&& s.len() >= 32
    &&& forall|i: int| 0 <= i < s.len() ==> is_hex(#[trigger] s[i])
}

/// Whether `s` looks like an identifier of application state, not of content.
pub open spec fn uuid_like(s: Seq<char>) -> bool {
    is_uuid(s) || is_long_hex(s)
}

/// Whether `c` is an ASCII hexadecimal digit.
fn hex_char(c: char) -> (r: bool)
    ensures
        r == is_hex(c),
{
    ('0' <= c && c <= '9') || ('a' <= c && c <= 'f') || ('A' <= c && c <= 'F')
}

/// Check if a value looks like a UUID (xxxxxxxx-xxxx-xxxx-xxxx-xxxxxxxxxxxx) or a
/// long hex string (32+ hex chars). These are app-state identifiers, not content
/// params.
pub fn is_uuid_like(value: &str) -> (r: bool)
    ensures
        r == uuid_like(value@),
{
    let chars = text::to_chars(value);
    let len = chars.len();
    if len < 32 {
        return false;
    }
    let mut uuid: bool = len == 36;
    let mut hex: bool = true;
    let mut i: usize = 0;
    while i < len
        invariant
            i <= len,
            len == chars@.len(),
            len >= 32,
            uuid <==> (len == 36 && forall|j: int|
                0 <= j < i ==> if is_dash_place(j) {
                    #[trigger] chars@[j] == '-'
                } else {
                    is_hex(chars@[j])
                }),
            hex <==> forall|j: int| 0 <= j < i ==> is_hex(#[trigger] chars@[j]),
        decreases len - i,
    {
        let c = chars[i];
        let digit = hex_char(c);
        if i == 8 || i == 13 || i == 18 || i == 23 {
            uuid = uuid && c == '-';
        } else {
            uuid = uuid && digit;
        }
        hex = hex && digit;
        i = i + 1;
    }
    uuid || hex
}

// ---------------------------------------------------------------------------
// Parameters that survive
// ---------------------------------------------------------------------------

/// What becomes of one `key=value` pair of a raw query: nothing where the key is
/// empty, where the filter strips its name, or where the value looks like a UUID and
/// the name is not preserved; else the parameter with its key and value written
/// anew.
pub open spec fn param_of(f: FilterRules, pair: Seq<char>) -> Option<Param> {
    let key = text::before(pair, '=');
    let name = component::decoded(key);
    let value = component::decoded(text::after(pair, '='));
    let lower = text::lowercase(name);
    if key.len() == 0 || f.strips(lower) || (!f.keeps(lower) && uuid_like(value)) {
        None
    } else {
        Some(
            Param {
                key: component::encoded(name),
                value: component::encoded(value),
                known: f.keeps(lower),
            },
        )
    }
}

/// [`param_of`] under the rules `f`.
pub open spec fn pass(f: FilterRules) -> spec_fn(Seq<char>) -> Option<Param> {
    |pair: Seq<char>| param_of(f, pair)
}

/// The parameters of a raw query that the filter and the UUID heuristic leave, in
/// the order of the query.
pub open spec fn surviving(f: FilterRules, query: Seq<char>) -> Seq<Param> {
    text::split_on(query, '&').filter_map(pass(f))
}

/// The parameters left when so many unknown ones as the threshold says, or more,
/// take all unknown ones with them.
pub open spec fn collapsed(f: FilterRules, s: Seq<Param>) -> Seq<Param> {
    if s.filter(params::is_unknown()).len() >= f.threshold {
        s.filter(params::is_known())
    } else {
        s
    }
}

/// The parameters of the clean query, in order.
pub open spec fn clean_params(f: FilterRules, query: Seq<char>) -> Seq<Param> {
    params::sorted_by_key(collapsed(f, surviving(f, query)))
}

/// How a parameter is written: `key=value`, or `key` alone where the value is empty.
pub open spec fn written(p: Param) -> Seq<char> {
    if p.value.len() == 0 {
        p.key
    } else {
        p.key.push('=') + p.value
    }
}

/// How each of the parameters is written.
pub open spec fn all_written(s: Seq<Param>) -> Seq<Seq<char>> {
    Seq::new(s.len(), |i: int| written(s[i]))
}

/// The clean form of a raw query.
pub open spec fn clean_query(f: FilterRules, query: Seq<char>) -> Seq<char> {
    text::join(all_written(clean_params(f, query)), '&')
}

/// The clean form of a query that may be missing.
pub open spec fn clean_query_or_empty(f: FilterRules, query: Option<Seq<char>>) -> Seq<char> {
    match query {
        Some(q) => clean_query(f, q),
        None => Seq::<char>::empty(),
    }
}

/// What becomes of one `key=value` pair of a raw query.
pub fn filter_pair(filter: &ResolvedFilter, pair: &str) -> (r: Option<QueryParam>)
    ensures
        match r {
            Some(p) => param_of(filter@, pair@) == Some(p@),
            None => param_of(filter@, pair@) is None,
        },
{
    let (key, value) = text::split_first(pair, '=');
    // Strip empty params (e.g. ?&_sfm_prix=... has an empty key before &)
    if key.as_str().is_empty() {
        return None;
    }
    let decoded_key = decode_query_component(key.as_str());
    let key_lower = decoded_key.as_str().to_lowercase();
    // Strip params the filter marks as tracking; `keep` wins, so a team can preserve
    // a specific default name via custom_keep.
    if filter.is_stripped(key_lower.as_str()) {
        return None;
    }
    let decoded_value = decode_query_component(value.as_str());
    let is_known = filter.is_kept(key_lower.as_str());
    // Strip params with UUID-like values (unless explicitly kept)
    if !is_known && is_uuid_like(decoded_value.as_str()) {
        return None;
    }
    let norm_key = encode_query_component(decoded_key.as_str());
    let norm_value = encode_query_component(decoded_value.as_str());
    Some(QueryParam { key: norm_key, value: norm_value, known: is_known })
}

/// Strips tracking params and UUID-valued params and normalizes the encoding of the
/// others.
pub fn surviving_params(filter: &ResolvedFilter, query: &str) -> (r: Vec<QueryParam>)
    ensures
        params::params(r@) == surviving(filter@, query@),
{
    let pairs = text::split(query, '&');
    let ghost all = text::split_on(query@, '&');
    let mut r: Vec<QueryParam> = Vec::new();
    let mut i: usize = 0;
    assert(params::params(r@) =~= all.take(0).filter_map(pass(filter@)));
    while i < pairs.len()
        invariant
            i <= pairs@.len(),
            all == text::texts(pairs@),
            params::params(r@) == all.take(i as int).filter_map(pass(filter@)),
        decreases pairs@.len() - i,
    {
        let ghost before = r@;
        proof {
            all.lemma_filter_map_take_succ(pass(filter@), i as int);
        }
        let kept = filter_pair(filter, pairs[i].as_str());
        if let Some(p) = kept {
            let ghost added = p@;
            r.push(p);
            assert(params::params(r@) =~= params::params(before) + seq![added]);
        }
        assert(params::params(r@) =~= all.take(i + 1).filter_map(pass(filter@)));
        i = i + 1;
    }
    assert(all.take(all.len() as int) =~= all);
    r
}

/// The number of parameters that the filter knows nothing of.
fn unknown_count(list: &Vec<QueryParam>) -> (r: usize)
    ensures
        r == params::params(list@).filter(params::is_unknown()).len(),
{
    let ghost all = params::params(list@);
    let mut count: usize = 0;
    let mut i: usize = 0;
    proof {
        reveal(Seq::filter);
    }
    while i < list.len()
        invariant
            i <= list@.len(),
            count <= i,
            all == params::params(list@),
            count == all.take(i as int).filter(params::is_unknown()).len(),
        decreases list@.len() - i,
    {
        proof {
            reveal(Seq::filter);
            assert(all.take(i + 1).drop_last() =~= all.take(i as int));
            assert(all.take(i + 1).last() == list@[i as int]@);
        }
        if !list[i].known {
            count = count + 1;
        }
        i = i + 1;
    }
    assert(all.take(all.len() as int) =~= all);
    count
}

/// The parameters of `list` that the filter always preserves.
fn retain_known(list: Vec<QueryParam>) -> (r: Vec<QueryParam>)
    ensures
        params::params(r@) == params::params(list@).filter(params::is_known()),
{
    let ghost all = params::params(list@);
    let mut r: Vec<QueryParam> = Vec::new();
    proof {
        reveal(Seq::filter);
        assert(params::params(r@) =~= all.take(0).filter(params::is_known()));
    }
    for p in it: list
        invariant
            it.seq() == list@,
            all == params::params(list@),
            params::params(r@) == all.take(it.index()).filter(params::is_known()),
    {
        proof {
            reveal(Seq::filter);
            let i = it.index();
            assert(all.take(i + 1).drop_last() =~= all.take(i));
            assert(all.take(i + 1).last() == p@);
        }
        if p.known {
            let ghost before = r@;
            let ghost added = p@;
            r.push(p);
            assert(params::params(r@) =~= params::params(before).push(added));
        }
    }
    assert(all.take(all.len() as int) =~= all);
    r
}

/// Drops all unknown parameters if they are so many as the filter's threshold says,
/// or more.
pub fn collapse_unknown(filter: &ResolvedFilter, list: Vec<QueryParam>) -> (r: Vec<QueryParam>)
    ensures
        params::params(r@) == collapsed(filter@, params::params(list@)),
{
    if unknown_count(&list) >= filter.threshold() {
        retain_known(list)
    } else {
        list
    }
}

/// Writes the parameters as a query string.
pub fn write_params(list: &Vec<QueryParam>) -> (r: String)
    ensures
        r@ == text::join(all_written(params::params(list@)), '&'),
{
    let mut parts: Vec<String> = Vec::new();
    let mut i: usize = 0;
    while i < list.len()
        invariant
            i <= list@.len(),
            parts@.len() == i,
            forall|j: int| 0 <= j < i ==> (#[trigger] parts@[j])@ == written(list@[j]@),
        decreases list@.len() - i,
    {
        let mut part = list[i].key.clone();
        if !list[i].value.as_str().is_empty() {
            part.push('=');
            part.append(list[i].value.as_str());
        }
        parts.push(part);
        i = i + 1;
    }
    assert(text::texts(parts@) =~= all_written(params::params(list@)));
    text::join_strings(&parts, '&')
}

/// Clean a raw query string with hybrid filtering:
/// 1. Strip configured tracking params (blocklist)
/// 2. Strip params with UUID-like values (heuristic)
/// 3. If N+ unknown params remain (N = filter.threshold), strip all non-allowlisted
///    params
/// 4. Sort by key for consistent ordering
pub fn clean(filter: &ResolvedFilter, query: &str) -> (r: String)
    ensures
        r@ == clean_query(filter@, query@),
{
    let surviving = surviving_params(filter, query);
    let left = collapse_unknown(filter, surviving);
    let sorted = sort_params(left);
    write_params(&sorted)
}

} // verus!
