//! Where HTML entities cannot arise: texts without semicolons, and what comes of them.
use crate::component;
use crate::entities;
use crate::filter::FilterRules;
use crate::params;
use crate::parsed_url;
use crate::query;
use crate::text;
use vstd::prelude::*;
use vstd::utf8::*;

verus! {

// ---------------------------------------------------------------------------
// Decoding entities
// ---------------------------------------------------------------------------

/// A text without semicolons holds no entity: decoding leaves it as it is.
pub proof fn no_semicolon_no_entity(s: Seq<char>)
    requires
        !s.contains(';'),
    ensures
        entities::entities_decoded(s) == s,
{
    reveal_strlit("&amp;");
    reveal_strlit("&quot;");
    reveal_strlit("&lt;");
    reveal_strlit("&gt;");
    reveal_strlit("&#39;");
    reveal_strlit("&apos;");
    entities::lemma_replace_absent(s, "&amp;"@, "&"@, 4);
    entities::lemma_replace_absent(s, "&quot;"@, "\""@, 5);
    entities::lemma_replace_absent(s, "&lt;"@, "<"@, 3);
    entities::lemma_replace_absent(s, "&gt;"@, ">"@, 3);
    entities::lemma_replace_absent(s, "&#39;"@, "'"@, 4);
    entities::lemma_replace_absent(s, "&apos;"@, "'"@, 5);
}

/// Whether no entity can reach from `s` over a number sign behind it.
pub open spec fn ends_before_fragment(s: Seq<char>) -> bool {
    !s.contains(';') && (s.len() > 0 ==> s.last() != '&')
}

/// Replacing an entity in a text with a fragment works behind the number sign only.
proof fn lemma_replace_in_fragment(s: Seq<char>, rest: Seq<char>, pat: Seq<char>, rep: Seq<char>)
    requires
        ends_before_fragment(s),
        pat.len() >= 2,
        pat[0] == '&',
        pat.last() == ';',
        forall|k: int| 0 <= k < pat.len() && #[trigger] pat[k] == '#' ==> k == 1,
    ensures
        text::replace_all(s.push('#') + rest, pat, rep) == s.push('#') + text::replace_all(
            rest,
            pat,
            rep,
        ),
    decreases s.len(),
{
    let whole = s.push('#') + rest;
    if pat.is_prefix_of(whole) {
        assert(whole.subrange(0, pat.len() as int) == pat);
        assert(pat[0] == whole[0]);
        if pat.len() <= s.len() {
            assert(pat[pat.len() - 1] == whole[pat.len() - 1]);
            assert(s[pat.len() - 1] == ';');
        } else {
            assert(pat[s.len() as int] == whole[s.len() as int]);
        }
    }
    if s.len() == 0 {
        assert(whole.skip(1) =~= rest);
        assert(s.push('#') =~= seq!['#']);
    } else {
        let t = s.skip(1);
        assert(!t.contains(';')) by {
            if t.contains(';') {
                let i = choose|i: int| 0 <= i < t.len() && t[i] == ';';
                assert(s[i + 1] == ';');
            }
        }
        lemma_replace_in_fragment(t, rest, pat, rep);
        assert(whole.skip(1) =~= t.push('#') + rest);
        assert(seq![s[0]] + (t.push('#') + text::replace_all(rest, pat, rep)) =~= s.push('#')
            + text::replace_all(rest, pat, rep));
    }
}

/// Decoding the entities of a text with a fragment works behind the number sign only.
pub proof fn entities_stay_in_fragment(s: Seq<char>, fragment: Seq<char>)
    requires
        ends_before_fragment(s),
    ensures
        entities::entities_decoded(s.push('#') + fragment) == s.push('#')
            + entities::entities_decoded(fragment),
{
    reveal_strlit("&amp;");
    reveal_strlit("&quot;");
    reveal_strlit("&lt;");
    reveal_strlit("&gt;");
    reveal_strlit("&#39;");
    reveal_strlit("&apos;");
    let r1 = text::replace_all(fragment, "&amp;"@, "&"@);
    let r2 = text::replace_all(r1, "&quot;"@, "\""@);
    let r3 = text::replace_all(r2, "&lt;"@, "<"@);
    let r4 = text::replace_all(r3, "&gt;"@, ">"@);
    let r5 = text::replace_all(r4, "&#39;"@, "'"@);
    lemma_replace_in_fragment(s, fragment, "&amp;"@, "&"@);
    lemma_replace_in_fragment(s, r1, "&quot;"@, "\""@);
    lemma_replace_in_fragment(s, r2, "&lt;"@, "<"@);
    lemma_replace_in_fragment(s, r3, "&gt;"@, ">"@);
    lemma_replace_in_fragment(s, r4, "&#39;"@, "'"@);
    lemma_replace_in_fragment(s, r5, "&apos;"@, "'"@);
}

// ---------------------------------------------------------------------------
// Components
// ---------------------------------------------------------------------------

/// Whether neither a semicolon nor a percent-encoded one stands in `b`.
spec fn bytes_free(b: Seq<u8>) -> bool {
    &&& forall|i: int| 0 <= i < b.len() ==> #[trigger] b[i] != 59
    &&& forall|i: int|
        0 <= i < b.len() - 2 && #[trigger] b[i] == 37 && b[i + 1] == 51 ==> b[i + 2] != 66 && b[i + 2]
            != 98
}

proof fn lemma_percent_decoded_free(b: Seq<u8>)
    requires
        bytes_free(b),
    ensures
        forall|i: int| 0 <= i < component::percent_decoded(b).len() ==> #[trigger]
            component::percent_decoded(b)[i] != 59,
    decreases b.len(),
{
    if b.len() > 0 {
        let n: int = if b[0] == 43 {
            1
        } else if component::starts_escape(b) {
            3
        } else {
            1
        };
        let rest = b.skip(n);
        assert(bytes_free(rest)) by {
            assert forall|i: int| 0 <= i < rest.len() implies #[trigger] rest[i] != 59 by {
                assert(rest[i] == b[n + i]);
            }
            assert forall|i: int|
                0 <= i < rest.len() - 2 && #[trigger] rest[i] == 37 && rest[i + 1] == 51 implies rest[i
                + 2] != 66 && rest[i + 2] != 98 by {
                assert(b[n + i] == 37);
            }
        }
        lemma_percent_decoded_free(rest);
        let tail = component::percent_decoded(rest);
        let all = component::percent_decoded(b);
        assert(all.len() == 1 + tail.len());
        assert forall|i: int| 0 <= i < all.len() implies #[trigger] all[i] != 59 by {
            if i > 0 {
                assert(all[i] == tail[i - 1]);
            } else {
                assert(b[0] != 59);
            }
        }
    }
}

proof fn lemma_first_scalar(b: Seq<u8>)
    requires
        b.len() > 0,
        valid_first_scalar(b),
    ensures
        is_scalar(decode_first_scalar(b)),
{
    let x = b[0];
    if is_leading_byte_width_1(x) {
        assert((x & 0x7F) as u32 <= 0x7f) by (bit_vector);
    } else if is_leading_byte_width_2(x) {
        let y = b[1];
        assert((((x & 0x1F) as u32) << 6) | ((y & 0x3f) as u32) <= 0x7ff) by (bit_vector);
    } else if is_leading_byte_width_3(x) {
        let (y, z) = (b[1], b[2]);
        assert((((x & 0x0F) as u32) << 12) | (((y & 0x3f) as u32) << 6) | ((z & 0x3f) as u32)
            <= 0xffff) by (bit_vector);
    }
}

proof fn lemma_lossy_free(b: Seq<u8>)
    requires
        forall|i: int| 0 <= i < b.len() ==> #[trigger] b[i] != 59,
    ensures
        !component::lossy(b).contains(';'),
    decreases b.len(),
{
    if b.len() > 0 {
        let n: int = if valid_first_scalar(b) {
            length_of_first_scalar(b)
        } else {
            component::ill_formed_prefix(b)
        };
        let rest = b.skip(n);
        if valid_first_scalar(b) {
            assert(pop_first_scalar(b) =~= rest);
        }
        assert forall|i: int| 0 <= i < rest.len() implies #[trigger] rest[i] != 59 by {
            assert(rest[i] == b[n + i]);
        }
        lemma_lossy_free(rest);
        if valid_first_scalar(b) {
            assert(decode_first_scalar(b) != 59) by {
                let x = b[0];
                assert(x != 59);
                if is_leading_byte_width_1(x) {
                    assert(x & 0x7F == x) by (bit_vector)
                        requires
                            x <= 0x7f,
                    ;
                }
            }
        }
        let all = component::lossy(b);
        let tail = component::lossy(rest);
        if all.contains(';') {
            let i = choose|i: int| 0 <= i < all.len() && all[i] == ';';
            if i > 0 {
                assert(tail[i - 1] == ';');
            } else if valid_first_scalar(b) {
                assert(all[0] == decode_first_scalar(b) as char);
                lemma_first_scalar(b);
            }
        }
    }
}

proof fn lemma_decoded_free(s: Seq<char>)
    requires
        is_ascii_chars(s),
        !s.contains(';'),
        !parsed_url::has_escaped_semicolon(s),
    ensures
        !component::decoded(s).contains(';'),
{
    let b = encode_utf8(s);
    is_ascii_chars_encode_utf8(s);
    assert(bytes_free(b)) by {
        assert forall|i: int| 0 <= i < b.len() implies #[trigger] b[i] != 59 by {
            assert(s[i] as u8 == b[i]);
            assert(s.contains(s[i]));
        }
        assert forall|i: int| 0 <= i < b.len() - 2 && #[trigger] b[i] == 37 && b[i + 1] == 51 implies b[i
            + 2] != 66 && b[i + 2] != 98 by {
            assert(s[i] as u8 == b[i]);
            assert(s[i + 1] as u8 == b[i + 1]);
            assert(s[i + 2] as u8 == b[i + 2]);
        }
    }
    lemma_percent_decoded_free(b);
    lemma_lossy_free(component::percent_decoded(b));
}

proof fn lemma_utf8_free(s: Seq<char>)
    requires
        !s.contains(';'),
    ensures
        forall|i: int| 0 <= i < encode_utf8(s).len() ==> #[trigger] encode_utf8(s)[i] != 59,
    decreases s.len(),
{
    if s.len() > 0 {
        let b = encode_utf8(s);
        encode_utf8_first_scalar(s);
        encode_utf8_valid_utf8(s);
        encode_utf8_decode_utf8(s);
        let rest = s.drop_first();
        assert(s[0] != ';') by {
            assert(s.contains(s[0]));
        }
        assert(!rest.contains(';')) by {
            if rest.contains(';') {
                let i = choose|i: int| 0 <= i < rest.len() && rest[i] == ';';
                assert(s[i + 1] == ';');
            }
        }
        lemma_utf8_free(rest);
        let n = length_of_first_scalar(b);
        let head = encode_scalar(s[0] as u32);
        assert(b =~= head + encode_utf8(rest));
        assert forall|i: int| 0 <= i < b.len() implies #[trigger] b[i] != 59 by {
            if i >= n {
                assert(b[i] == encode_utf8(rest)[i - n]);
            } else if i == 0 {
                let x = b[0];
                if x == 59 {
                    assert(59u8 & 0x7F == 59u8) by (bit_vector);
                    assert(decode_first_scalar(b) == 59);
                }
            } else {
                assert(is_continuation_byte(b[i]));
            }
        }
    }
}

proof fn lemma_encoded_free(s: Seq<char>)
    requires
        !s.contains(';'),
    ensures
        !component::encoded(s).contains(';'),
{
    lemma_utf8_free(s);
    lemma_percent_encoded_free(encode_utf8(s));
    let b = component::percent_encoded(encode_utf8(s));
    if component::encoded(s).contains(';') {
        let i = choose|i: int| 0 <= i < b.len() && component::encoded(s)[i] == ';';
        assert(b[i] as char == ';');
        assert(b[i] == 59);
    }
}

proof fn lemma_percent_encoded_free(b: Seq<u8>)
    requires
        forall|i: int| 0 <= i < b.len() ==> #[trigger] b[i] != 59,
    ensures
        forall|i: int| 0 <= i < component::percent_encoded(b).len() ==> #[trigger]
            component::percent_encoded(b)[i] != 59,
    decreases b.len(),
{
    if b.len() > 0 {
        let head = component::percent_byte(b[0]);
        let rest = b.skip(1);
        assert forall|i: int| 0 <= i < rest.len() implies #[trigger] rest[i] != 59 by {
            assert(rest[i] == b[i + 1]);
        }
        lemma_percent_encoded_free(rest);
        let tail = component::percent_encoded(rest);
        let all = component::percent_encoded(b);
        assert forall|i: int| 0 <= i < all.len() implies #[trigger] all[i] != 59 by {
            if i < head.len() {
                assert(all[i] == head[i]);
            } else {
                assert(all[i] == tail[i - head.len()]);
            }
        }
    }
}

// ---------------------------------------------------------------------------
// Queries
// ---------------------------------------------------------------------------

/// Whether `s` is an ASCII text in which neither a semicolon nor a percent-encoded one
/// stands.
pub open spec fn free_of_semicolons(s: Seq<char>) -> bool {
    &&& is_ascii_chars(s)
    &&& !s.contains(';')
    &&& !parsed_url::has_escaped_semicolon(s)
}

proof fn lemma_free_part(s: Seq<char>, from: int, to: int)
    requires
        free_of_semicolons(s),
        0 <= from <= to <= s.len(),
    ensures
        free_of_semicolons(s.subrange(from, to)),
{
    let t = s.subrange(from, to);
    if t.contains(';') {
        let i = choose|i: int| 0 <= i < t.len() && t[i] == ';';
        assert(s[from + i] == ';');
    }
    if parsed_url::has_escaped_semicolon(t) {
        let i = choose|i: int|
            0 <= i < t.len() - 2 && #[trigger] t[i] == '%' && t[i + 1] == '3' && (t[i + 2] == 'B'
                || t[i + 2] == 'b');
        assert(s[from + i] == '%');
    }
}

/// Every piece of a text stands in it.
proof fn lemma_pieces(s: Seq<char>, sep: char, i: int) -> (r: (int, int))
    requires
        0 <= i < text::split_on(s, sep).len(),
    ensures
        0 <= r.0 <= r.1 <= s.len(),
        text::split_on(s, sep)[i] == s.subrange(r.0, r.1),
        i == text::split_on(s, sep).len() - 1 ==> r.1 == s.len(),
    decreases s.len(),
{
    if s.len() == 0 {
        assert(s.subrange(0, 0) =~= Seq::<char>::empty());
        (0, 0)
    } else {
        let t = s.drop_last();
        let front = text::split_on(t, sep);
        text::lemma_split_not_empty(t, sep);
        if s.last() == sep {
            if i < front.len() {
                let r = lemma_pieces(t, sep, i);
                assert(t.subrange(r.0, r.1) =~= s.subrange(r.0, r.1));
                r
            } else {
                assert(s.subrange(s.len() as int, s.len() as int) =~= Seq::<char>::empty());
                (s.len() as int, s.len() as int)
            }
        } else {
            let r = lemma_pieces(t, sep, i);
            if i < front.len() - 1 {
                assert(t.subrange(r.0, r.1) =~= s.subrange(r.0, r.1));
                r
            } else {
                assert(t.subrange(r.0, r.1).push(s.last()) =~= s.subrange(r.0, s.len() as int));
                (r.0, s.len() as int)
            }
        }
    }
}

/// The key and the value of a pair stand in it.
proof fn lemma_key_and_value(s: Seq<char>, sep: char) -> (k: int)
    ensures
        0 <= k <= s.len(),
        text::before(s, sep) == s.subrange(0, k),
        k < s.len() ==> text::after(s, sep) == s.subrange(k + 1, s.len() as int),
        k == s.len() ==> text::after(s, sep).len() == 0,
    decreases s.len(),
{
    if s.len() == 0 {
        assert(s.subrange(0, 0) =~= Seq::<char>::empty());
        0
    } else if s[0] == sep {
        assert(s.subrange(0, 0) =~= Seq::<char>::empty());
        assert(s.skip(1) =~= s.subrange(1, s.len() as int));
        0
    } else {
        let t = s.skip(1);
        let k = lemma_key_and_value(t, sep);
        assert(seq![s[0]] + t.subrange(0, k) =~= s.subrange(0, k + 1));
        if k < t.len() {
            assert(t.subrange(k + 1, t.len() as int) =~= s.subrange(k + 2, s.len() as int));
        }
        k + 1
    }
}

proof fn lemma_param_free(f: FilterRules, pair: Seq<char>)
    requires
        free_of_semicolons(pair),
    ensures
        query::param_of(f, pair) matches Some(p) ==> !query::written(p).contains(';'),
{
    if let Some(p) = query::param_of(f, pair) {
        let k = lemma_key_and_value(pair, '=');
        lemma_free_part(pair, 0, k);
        let value = text::after(pair, '=');
        if k < pair.len() {
            lemma_free_part(pair, k + 1, pair.len() as int);
        } else {
            assert(value =~= Seq::<char>::empty());
        }
        lemma_decoded_free(text::before(pair, '='));
        lemma_decoded_free(value);
        lemma_encoded_free(component::decoded(text::before(pair, '=')));
        lemma_encoded_free(component::decoded(value));
        let whole = p.key.push('=') + p.value;
        if whole.contains(';') {
            let i = choose|i: int| 0 <= i < whole.len() && whole[i] == ';';
            if i < p.key.len() {
                assert(p.key[i] == ';');
            } else if i > p.key.len() {
                assert(p.value[i - p.key.len() - 1] == ';');
            }
        }
    }
}

proof fn lemma_join_free(parts: Seq<Seq<char>>)
    requires
        forall|i: int| 0 <= i < parts.len() ==> !(#[trigger] parts[i]).contains(';'),
    ensures
        !text::join(parts, '&').contains(';'),
    decreases parts.len(),
{
    if parts.len() > 1 {
        let front = parts.drop_last();
        assert forall|i: int| 0 <= i < front.len() implies !(#[trigger] front[i]).contains(';') by {
            assert(front[i] == parts[i]);
        }
        lemma_join_free(front);
        let head = text::join(front, '&');
        let tail = parts.last();
        assert(!parts[parts.len() - 1].contains(';'));
        let whole = head.push('&') + tail;
        if whole.contains(';') {
            let i = choose|i: int| 0 <= i < whole.len() && whole[i] == ';';
            if i < head.len() {
                assert(head[i] == ';');
            } else if i > head.len() {
                assert(tail[i - head.len() - 1] == ';');
            }
        }
    } else if parts.len() == 1 {
        assert(!parts[0].contains(';'));
    }
}

/// No semicolon arises in the clean form of a query in which neither a semicolon nor a
/// percent-encoded one stands.
pub proof fn clean_query_stays_free(f: FilterRules, q: Seq<char>)
    requires
        free_of_semicolons(q),
    ensures
        !query::clean_query(f, q).contains(';'),
{
    let s = query::surviving(f, q);
    let ps = query::clean_params(f, q);
    let pairs = text::split_on(q, '&');
    let parts = query::all_written(ps);
    assert forall|i: int| 0 <= i < parts.len() implies !(#[trigger] parts[i]).contains(';') by {
        let p = ps[i];
        assert(ps.contains(p));
        params::sorting_keeps_params(query::collapsed(f, s), p);
        if s.filter(params::is_unknown()).len() >= f.threshold {
            s.lemma_filter_contains_rev(params::is_known(), p);
        }
        pairs.lemma_filter_map_contains(query::pass(f), p);
        let pair = choose|pair: Seq<char>| #[trigger]
            pairs.contains(pair) && query::pass(f)(pair) == Some(p);
        let j = choose|j: int| 0 <= j < pairs.len() && pairs[j] == pair;
        let r = lemma_pieces(q, '&', j);
        lemma_free_part(q, r.0, r.1);
        lemma_param_free(f, pair);
    }
    lemma_join_free(parts);
}

// ---------------------------------------------------------------------------
// What decoding entities does
// ---------------------------------------------------------------------------

/// The entities that are decoded, in the order in which they are looked for.
pub open spec fn entity(k: int) -> Seq<char> {
    if k == 0 {
        "&amp;"@
    } else if k == 1 {
        "&quot;"@
    } else if k == 2 {
        "&lt;"@
    } else if k == 3 {
        "&gt;"@
    } else if k == 4 {
        "&#39;"@
    } else {
        "&apos;"@
    }
}

/// The character that an entity stands for.
pub open spec fn meaning(k: int) -> char {
    if k == 0 {
        '&'
    } else if k == 1 {
        '"'
    } else if k == 2 {
        '<'
    } else if k == 3 {
        '>'
    } else {
        '\''
    }
}

/// Whether what follows an ampersand makes it one of the entities from the `from`-th on.
pub open spec fn completes_entity(from: int, rest: Seq<char>) -> bool {
    exists|k: int| from <= k < 6 && (#[trigger] entity(k)).skip(1).is_prefix_of(rest)
}

/// `s` with the entities from the `from`-th on replaced, one kind after the other.
spec fn replaced_from(from: int, s: Seq<char>) -> Seq<char>
    decreases 6 - from,
{
    if from >= 6 {
        s
    } else {
        replaced_from(from + 1, text::replace_all(s, entity(from), seq![meaning(from)]))
    }
}

proof fn lemma_entity_text(k: int)
    requires
        0 <= k < 6,
    ensures
        entity(k).len() > 3,
        entity(k)[0] == '&',
        entity(k) == seq!['&'] + entity(k).skip(1),
        !entity(k).skip(1).contains('&'),
        forall|j: int| 0 <= j < 6 ==> !entity(k).skip(1).contains(#[trigger] meaning(j)),
        forall|j: int, rest: Seq<char>|
            0 <= j < 6 && j != k ==> !(#[trigger] entity(j)).is_prefix_of(
                #[trigger] (entity(k) + rest),
            ),
{
    reveal_strlit("&amp;");
    reveal_strlit("&quot;");
    reveal_strlit("&lt;");
    reveal_strlit("&gt;");
    reveal_strlit("&#39;");
    reveal_strlit("&apos;");
    let e = entity(k);
    assert(e =~= seq!['&'] + e.skip(1));
    assert forall|i: int| 0 <= i < e.skip(1).len() implies {
        let c = #[trigger] e.skip(1)[i];
        c != '&' && c != '"' && c != '<' && c != '>' && c != '\''
    } by {
        assert(e.skip(1)[i] == e[i + 1]);
    }
    assert forall|j: int, rest: Seq<char>|
        0 <= j < 6 && j != k implies !(#[trigger] entity(j)).is_prefix_of(
        #[trigger] (entity(k) + rest),
    ) by {
        let whole = e + rest;
        let d = entity(j);
        if d.is_prefix_of(whole) {
            let head = whole.subrange(0, d.len() as int);
            assert(head[1] == d[1] && head[2] == d[2]);
            assert(whole[1] == e[1] && whole[2] == e[2]);
        }
    }
}

proof fn lemma_decoded_in_turn(s: Seq<char>)
    ensures
        entities::entities_decoded(s) == replaced_from(0, s),
{
    reveal_strlit("&");
    reveal_strlit("\"");
    reveal_strlit("<");
    reveal_strlit(">");
    reveal_strlit("'");
    assert("&"@ =~= seq!['&']);
    assert("\""@ =~= seq!['"']);
    assert("<"@ =~= seq!['<']);
    assert(">"@ =~= seq!['>']);
    assert("'"@ =~= seq!['\'']);
    reveal_with_fuel(replaced_from, 7);
}

proof fn lemma_replace_behind(a: Seq<char>, x: Seq<char>, pat: Seq<char>, rep: Seq<char>)
    requires
        pat.len() > 0,
        !a.contains(pat[0]),
    ensures
        text::replace_all(a + x, pat, rep) == a + text::replace_all(x, pat, rep),
    decreases a.len(),
{
    if a.len() == 0 {
        assert(a + x =~= x);
        assert(a + text::replace_all(x, pat, rep) =~= text::replace_all(x, pat, rep));
    } else {
        let whole = a + x;
        assert(a.contains(a[0]));
        if pat.is_prefix_of(whole) {
            assert(whole.subrange(0, pat.len() as int)[0] == whole[0]);
        }
        let b = a.skip(1);
        assert(!b.contains(pat[0])) by {
            if b.contains(pat[0]) {
                let i = choose|i: int| 0 <= i < b.len() && b[i] == pat[0];
                assert(a[i + 1] == pat[0]);
            }
        }
        lemma_replace_behind(b, x, pat, rep);
        assert(whole.skip(1) =~= b + x);
        assert(text::replace_all(whole, pat, rep) =~= a + text::replace_all(x, pat, rep));
    }
}

proof fn lemma_replaced_behind(from: int, a: Seq<char>, x: Seq<char>)
    requires
        0 <= from,
        !a.contains('&'),
    ensures
        replaced_from(from, a + x) == a + replaced_from(from, x),
    decreases 6 - from,
{
    if from < 6 {
        lemma_entity_text(from);
        lemma_replace_behind(a, x, entity(from), seq![meaning(from)]);
        lemma_replaced_behind(
            from + 1,
            a,
            text::replace_all(x, entity(from), seq![meaning(from)]),
        );
    }
}

/// A beginning that holds neither an ampersand nor the replacement is there before just if
/// it is there afterwards.
proof fn lemma_replace_same_start(t: Seq<char>, s: Seq<char>, pat: Seq<char>, c: char)
    requires
        pat.len() > 0,
        !t.contains(pat[0]),
        !t.contains(c),
    ensures
        t.is_prefix_of(s) <==> t.is_prefix_of(text::replace_all(s, pat, seq![c])),
    decreases t.len(),
{
    let r = text::replace_all(s, pat, seq![c]);
    if t.len() == 0 {
        assert(t =~= s.subrange(0, 0));
        assert(t =~= r.subrange(0, 0));
    } else {
        assert(t.contains(t[0]));
        let u = t.skip(1);
        assert(!u.contains(pat[0]) && !u.contains(c)) by {
            if u.contains(pat[0]) {
                let i = choose|i: int| 0 <= i < u.len() && u[i] == pat[0];
                assert(t[i + 1] == pat[0]);
            }
            if u.contains(c) {
                let i = choose|i: int| 0 <= i < u.len() && u[i] == c;
                assert(t[i + 1] == c);
            }
        }
        if s.len() > 0 && pat.is_prefix_of(s) {
            assert(s.subrange(0, pat.len() as int)[0] == s[0]);
            assert(r[0] == c);
            if t.is_prefix_of(s) {
                assert(s.subrange(0, t.len() as int)[0] == t[0]);
            }
            if t.is_prefix_of(r) {
                assert(r.subrange(0, t.len() as int)[0] == t[0]);
            }
        } else if s.len() > 0 {
            lemma_replace_same_start(u, s.skip(1), pat, c);
            assert(r == seq![s[0]] + text::replace_all(s.skip(1), pat, seq![c]));
            assert(r.skip(1) =~= text::replace_all(s.skip(1), pat, seq![c]));
            lemma_prefix_step(t, s);
            lemma_prefix_step(t, r);
        }
    }
}

proof fn lemma_prefix_step(t: Seq<char>, s: Seq<char>)
    requires
        t.len() > 0,
        s.len() > 0,
    ensures
        t.is_prefix_of(s) <==> t[0] == s[0] && t.skip(1).is_prefix_of(s.skip(1)),
{
    let (u, v) = (t.skip(1), s.skip(1));
    if t.is_prefix_of(s) {
        assert(s.subrange(0, t.len() as int)[0] == t[0]);
        assert(u =~= v.subrange(0, u.len() as int)) by {
            assert forall|i: int| 0 <= i < t.len() implies #[trigger] t[i] == s[i] by {
                assert(s.subrange(0, t.len() as int)[i] == t[i]);
            }
        }
    }
    if t[0] == s[0] && u.is_prefix_of(v) {
        assert(t =~= s.subrange(0, t.len() as int)) by {
            assert forall|i: int| 0 <= i < t.len() implies #[trigger] t[i] == s[i] by {
                if i > 0 {
                    assert(v.subrange(0, u.len() as int)[i - 1] == u[i - 1]);
                }
            }
        }
    }
}

proof fn lemma_lone_ampersand(from: int, b: Seq<char>)
    requires
        0 <= from,
        !completes_entity(from, b),
    ensures
        replaced_from(from, seq!['&'] + b) == seq!['&'] + replaced_from(from, b),
    decreases 6 - from,
{
    if from < 6 {
        let (pat, c) = (entity(from), meaning(from));
        let whole = seq!['&'] + b;
        lemma_entity_text(from);
        lemma_prefix_step(pat, whole);
        assert(whole.skip(1) =~= b);
        assert(!pat.is_prefix_of(whole)) by {
            assert(!pat.skip(1).is_prefix_of(b));
        }
        let r = text::replace_all(b, pat, seq![c]);
        assert(text::replace_all(whole, pat, seq![c]) == seq!['&'] + r);
        assert(!completes_entity(from + 1, r)) by {
            if completes_entity(from + 1, r) {
                let k = choose|k: int|
                    from + 1 <= k < 6 && (#[trigger] entity(k)).skip(1).is_prefix_of(r);
                lemma_entity_text(k);
                assert(!entity(k).skip(1).contains(meaning(from)));
                lemma_replace_same_start(entity(k).skip(1), b, pat, c);
            }
        }
        lemma_lone_ampersand(from + 1, r);
    }
}

proof fn lemma_entity_replaced(from: int, k: int, b: Seq<char>)
    requires
        0 <= from <= k < 6,
        k > 0,
    ensures
        replaced_from(from, entity(k) + b) == seq![meaning(k)] + replaced_from(from, b),
    decreases 6 - from,
{
    let (pat, c) = (entity(from), meaning(from));
    let e = entity(k);
    lemma_entity_text(from);
    lemma_entity_text(k);
    let whole = e + b;
    let r = text::replace_all(b, pat, seq![c]);
    if from == k {
        text::replacement_goes_from_the_left(b, pat, seq![c]);
        assert(!seq![meaning(k)].contains('&'));
        lemma_replaced_behind(from + 1, seq![meaning(k)], r);
    } else {
        assert(!pat.is_prefix_of(whole));
        let tail = e.skip(1);
        assert(whole[0] == '&');
        assert(whole.skip(1) =~= tail + b);
        lemma_replace_behind(tail, b, pat, seq![c]);
        assert(text::replace_all(whole, pat, seq![c]) =~= e + r) by {
            assert(text::replace_all(whole, pat, seq![c]) == seq![whole[0]] + (tail + r));
            assert(seq!['&'] + (tail + r) =~= (seq!['&'] + tail) + r);
        }
        lemma_entity_replaced(from + 1, k, r);
    }
}

/// An entity other than `&amp;` gives the character that it stands for, also where its
/// ampersand was written as an entity itself; what stands before and behind is decoded by
/// itself.
pub proof fn entities_give_their_characters(a: Seq<char>, k: int, b: Seq<char>)
    requires
        !a.contains('&'),
        1 <= k < 6,
    ensures
        entities::entities_decoded(a + entity(k) + b) == a + seq![meaning(k)]
            + entities::entities_decoded(b),
        entities::entities_decoded(a + entity(0) + entity(k).skip(1) + b) == a + seq![meaning(k)]
            + entities::entities_decoded(b),
{
    lemma_decoded_in_turn(b);
    lemma_decoded_in_turn(a + entity(k) + b);
    assert(a + entity(k) + b =~= a + (entity(k) + b));
    lemma_replaced_behind(0, a, entity(k) + b);
    lemma_entity_replaced(0, k, b);
    assert(a + (seq![meaning(k)] + replaced_from(0, b)) =~= a + seq![meaning(k)] + replaced_from(
        0,
        b,
    ));
    let tail = entity(k).skip(1);
    let whole = a + entity(0) + tail + b;
    lemma_decoded_in_turn(whole);
    assert(whole =~= a + (entity(0) + (tail + b)));
    lemma_replaced_behind(0, a, entity(0) + (tail + b));
    lemma_entity_text(0);
    lemma_entity_text(k);
    let amp = seq![meaning(0)];
    text::replacement_goes_from_the_left(tail + b, entity(0), amp);
    lemma_replace_behind(tail, b, entity(0), amp);
    let r = text::replace_all(b, entity(0), amp);
    assert(amp + (tail + r) =~= entity(k) + r);
    lemma_entity_replaced(1, k, r);
    assert(replaced_from(0, entity(0) + (tail + b)) == seq![meaning(k)] + replaced_from(0, b));
}

/// `&amp;` gives an ampersand, unless what follows makes that one of the other entities.
/// An ampersand that begins no entity stays. What stands before and behind is decoded by
/// itself.
pub proof fn other_ampersands_stay(a: Seq<char>, b: Seq<char>)
    requires
        !a.contains('&'),
    ensures
        !completes_entity(1, b) ==> entities::entities_decoded(a + entity(0) + b) == a + seq!['&']
            + entities::entities_decoded(b),
        !completes_entity(0, b) ==> entities::entities_decoded(a + seq!['&'] + b) == a + seq!['&']
            + entities::entities_decoded(b),
{
    lemma_decoded_in_turn(b);
    lemma_entity_text(0);
    let amp = seq![meaning(0)];
    if !completes_entity(1, b) {
        let whole = a + entity(0) + b;
        lemma_decoded_in_turn(whole);
        assert(whole =~= a + (entity(0) + b));
        lemma_replaced_behind(0, a, entity(0) + b);
        text::replacement_goes_from_the_left(b, entity(0), amp);
        let r = text::replace_all(b, entity(0), amp);
        assert(!completes_entity(1, r)) by {
            if completes_entity(1, r) {
                let k = choose|k: int|
                    1 <= k < 6 && (#[trigger] entity(k)).skip(1).is_prefix_of(r);
                lemma_entity_text(k);
                assert(!entity(k).skip(1).contains(meaning(0)));
                lemma_replace_same_start(entity(k).skip(1), b, entity(0), meaning(0));
            }
        }
        lemma_lone_ampersand(1, r);
        assert(a + (seq!['&'] + replaced_from(0, b)) =~= a + seq!['&'] + replaced_from(0, b));
    }
    if !completes_entity(0, b) {
        let whole = a + seq!['&'] + b;
        lemma_decoded_in_turn(whole);
        assert(whole =~= a + (seq!['&'] + b));
        lemma_replaced_behind(0, a, seq!['&'] + b);
        lemma_lone_ampersand(0, b);
        assert(a + (seq!['&'] + replaced_from(0, b)) =~= a + seq!['&'] + replaced_from(0, b));
    }
}

} // verus!
