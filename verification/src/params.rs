//! Query parameters and their order.
use vstd::prelude::*;
use vstd::utf8::*;

verus! {

// ---------------------------------------------------------------------------
// Parameters
// ---------------------------------------------------------------------------

/// A query parameter that passed the filter: its encoded key and value, and
/// whether the filter always preserves it.
#[verifier::ext_equal]
pub struct Param {
    pub key: Seq<char>,
    pub value: Seq<char>,
    pub known: bool,
}

/// A query parameter that passed the filter.
pub struct QueryParam {
    /// The encoded key.
    pub key: String,
    /// The encoded value, empty where there is none.
    pub value: String,
    /// Whether the filter always preserves this parameter.
    pub known: bool,
}

impl View for QueryParam {
    type V = Param;

    open spec fn view(&self) -> Param {
        Param { key: self.key@, value: self.value@, known: self.known }
    }
}

/// The parameters of a list.
pub open spec fn params(v: Seq<QueryParam>) -> Seq<Param> {
    Seq::new(v.len(), |i: int| v[i]@)
}

/// Holds of the parameters that the filter always preserves.
pub open spec fn is_known() -> spec_fn(Param) -> bool {
    |p: Param| p.known
}

/// Holds of the parameters that the filter knows nothing of.
pub open spec fn is_unknown() -> spec_fn(Param) -> bool {
    |p: Param| !p.known
}

// ---------------------------------------------------------------------------
// The order of keys
// ---------------------------------------------------------------------------

/// The lexicographic order of byte sequences.
pub open spec fn bytes_le(a: Seq<u8>, b: Seq<u8>) -> bool
    decreases a.len(),
{
    ||| a.len() == 0
    ||| b.len() > 0 && a[0] < b[0]
    ||| b.len() > 0 && a[0] == b[0] && bytes_le(a.skip(1), b.skip(1))
}

/// The order of strings: by the bytes of their UTF-8 form.
pub open spec fn key_le(a: Seq<char>, b: Seq<char>) -> bool {
    bytes_le(encode_utf8(a), encode_utf8(b))
}

/// Whether `a` comes no later than `b` in the order of strings.
pub fn key_not_after(a: &str, b: &str) -> (r: bool)
    ensures
        r == key_le(a@, b@),
{
    let x = a.as_bytes();
    let y = b.as_bytes();
    let mut i: usize = 0;
    assert(x@.skip(0) =~= x@);
    assert(y@.skip(0) =~= y@);
    while i < x.len() && i < y.len()
        invariant
            i <= x@.len(),
            i <= y@.len(),
            bytes_le(x@, y@) == bytes_le(x@.skip(i as int), y@.skip(i as int)),
            x@ == encode_utf8(a@),
            y@ == encode_utf8(b@),
        decreases x@.len() - i,
    {
        if x[i] < y[i] {
            return true;
        }
        if x[i] > y[i] {
            return false;
        }
        assert(x@.skip(i as int).skip(1) =~= x@.skip(i + 1));
        assert(y@.skip(i as int).skip(1) =~= y@.skip(i + 1));
        i = i + 1;
    }
    i == x.len()
}

proof fn lemma_bytes_le_total(a: Seq<u8>, b: Seq<u8>)
    ensures
        bytes_le(a, b) || bytes_le(b, a),
    decreases a.len(),
{
    if a.len() > 0 && b.len() > 0 {
        lemma_bytes_le_total(a.skip(1), b.skip(1));
    }
}

proof fn lemma_bytes_le_transitive(a: Seq<u8>, b: Seq<u8>, c: Seq<u8>)
    requires
        bytes_le(a, b),
        bytes_le(b, c),
    ensures
        bytes_le(a, c),
    decreases a.len(),
{
    if a.len() > 0 && b.len() > 0 && c.len() > 0 && a[0] == b[0] && b[0] == c[0] {
        lemma_bytes_le_transitive(a.skip(1), b.skip(1), c.skip(1));
    }
}

proof fn lemma_bytes_le_antisymmetric(a: Seq<u8>, b: Seq<u8>)
    requires
        bytes_le(a, b),
        bytes_le(b, a),
    ensures
        a == b,
    decreases a.len(),
{
    if a.len() > 0 && b.len() > 0 {
        lemma_bytes_le_antisymmetric(a.skip(1), b.skip(1));
        assert(a =~= seq![a[0]] + a.skip(1));
        assert(b =~= seq![b[0]] + b.skip(1));
    } else {
        assert(a =~= b);
    }
}

/// The order of keys is a total order.
pub proof fn key_order_is_total(a: Seq<char>, b: Seq<char>, c: Seq<char>)
    ensures
        key_le(a, a),
        key_le(a, b) || key_le(b, a),
        key_le(a, b) && key_le(b, a) ==> a == b,
        key_le(a, b) && key_le(b, c) ==> key_le(a, c),
{
    let (x, y, z) = (encode_utf8(a), encode_utf8(b), encode_utf8(c));
    lemma_bytes_le_total(x, x);
    lemma_bytes_le_total(x, y);
    if bytes_le(x, y) && bytes_le(y, x) {
        lemma_bytes_le_antisymmetric(x, y);
        encode_utf8_decode_utf8(a);
        encode_utf8_decode_utf8(b);
    }
    if bytes_le(x, y) && bytes_le(y, z) {
        lemma_bytes_le_transitive(x, y, z);
    }
}

/// Whether `a` begins `b`, or is smaller than it at the first byte in which they differ.
pub open spec fn comes_first(a: Seq<u8>, b: Seq<u8>) -> bool {
    ||| a.is_prefix_of(b)
    ||| exists|k: int|
        0 <= k < a.len() && k < b.len() && #[trigger] a.take(k) == b.take(k) && a[k] < b[k]
}

proof fn lemma_bytes_le_at(a: Seq<u8>, b: Seq<u8>, k: int)
    requires
        0 <= k < a.len(),
        k < b.len(),
        a.take(k) == b.take(k),
        a[k] != b[k],
    ensures
        bytes_le(a, b) == (a[k] < b[k]),
    decreases k,
{
    if k > 0 {
        assert(a.take(k)[0] == a[0] && b.take(k)[0] == b[0]);
        assert(a.skip(1).take(k - 1) =~= a.take(k).skip(1));
        assert(b.skip(1).take(k - 1) =~= b.take(k).skip(1));
        lemma_bytes_le_at(a.skip(1), b.skip(1), k - 1);
    }
}

proof fn lemma_bytes_le_prefix(a: Seq<u8>, b: Seq<u8>)
    requires
        a.is_prefix_of(b),
    ensures
        bytes_le(a, b),
    decreases a.len(),
{
    if a.len() > 0 {
        assert(b.subrange(0, a.len() as int)[0] == b[0]);
        assert(a.skip(1) =~= b.skip(1).subrange(0, a.skip(1).len() as int)) by {
            assert forall|i: int| 0 <= i < a.len() implies #[trigger] a[i] == b[i] by {
                assert(b.subrange(0, a.len() as int)[i] == a[i]);
            }
        }
        lemma_bytes_le_prefix(a.skip(1), b.skip(1));
    }
}

proof fn lemma_bytes_le_first(a: Seq<u8>, b: Seq<u8>)
    requires
        bytes_le(a, b),
    ensures
        comes_first(a, b),
    decreases a.len(),
{
    if a.len() == 0 {
        assert(a =~= b.subrange(0, 0));
    } else if a[0] < b[0] {
        assert(a.take(0) =~= b.take(0));
    } else {
        let (x, y) = (a.skip(1), b.skip(1));
        lemma_bytes_le_first(x, y);
        if x.is_prefix_of(y) {
            assert(a =~= b.subrange(0, a.len() as int)) by {
                assert forall|i: int| 0 <= i < a.len() implies a[i] == b[i] by {
                    if i > 0 {
                        assert(y.subrange(0, x.len() as int)[i - 1] == x[i - 1]);
                    }
                }
            }
        } else {
            let k = choose|k: int|
                0 <= k < x.len() && k < y.len() && #[trigger] x.take(k) == y.take(k) && x[k] < y[k];
            assert(a.take(k + 1) =~= b.take(k + 1)) by {
                assert forall|i: int| 0 <= i < k + 1 implies a[i] == b[i] by {
                    if i > 0 {
                        assert(x.take(k)[i - 1] == y.take(k)[i - 1]);
                    }
                }
            }
        }
    }
}

/// Keys are in the order of their bytes: the first byte in which two keys differ decides,
/// and a key comes before those that it begins.
pub proof fn first_difference_decides(a: Seq<char>, b: Seq<char>)
    ensures
        key_le(a, b) <==> comes_first(encode_utf8(a), encode_utf8(b)),
{
    let (x, y) = (encode_utf8(a), encode_utf8(b));
    if bytes_le(x, y) {
        lemma_bytes_le_first(x, y);
    }
    if x.is_prefix_of(y) {
        lemma_bytes_le_prefix(x, y);
    } else if comes_first(x, y) {
        let k = choose|k: int|
            0 <= k < x.len() && k < y.len() && #[trigger] x.take(k) == y.take(k) && x[k] < y[k];
        lemma_bytes_le_at(x, y, k);
    }
}

// ---------------------------------------------------------------------------
// Sorting
// ---------------------------------------------------------------------------

/// `s` with `p` put in behind the last parameter whose key comes no later.
pub open spec fn insert_by_key(s: Seq<Param>, p: Param) -> Seq<Param>
    decreases s.len(),
{
    if s.len() == 0 || key_le(s.last().key, p.key) {
        s.push(p)
    } else {
        insert_by_key(s.drop_last(), p).push(s.last())
    }
}

/// `s` sorted by key; parameters with equal keys stay in their order.
pub open spec fn sorted_by_key(s: Seq<Param>) -> Seq<Param>
    decreases s.len(),
{
    if s.len() == 0 {
        s
    } else {
        insert_by_key(sorted_by_key(s.drop_last()), s.last())
    }
}

/// Whether the keys of `s` are in order.
pub open spec fn in_order(s: Seq<Param>) -> bool {
    forall|i: int, j: int| 0 <= i <= j < s.len() ==> key_le(#[trigger] s[i].key, #[trigger] s[j].key)
}

/// Puts `p` into the sorted list `v`.
fn insert_sorted(v: &mut Vec<QueryParam>, p: QueryParam)
    ensures
        params(final(v)@) == insert_by_key(params(old(v)@), p@),
{
    let ghost s = params(v@);
    let mut i: usize = v.len();
    assert(s.take(s.len() as int) =~= s);
    assert(insert_by_key(s, p@) =~= insert_by_key(s.take(i as int), p@) + s.skip(i as int));
    while i > 0 && !key_not_after(v[i - 1].key.as_str(), p.key.as_str())
        invariant
            i <= v@.len(),
            s == params(v@),
            insert_by_key(s, p@) =~= insert_by_key(s.take(i as int), p@) + s.skip(i as int),
        decreases i,
    {
        assert(s.take(i as int).drop_last() =~= s.take(i - 1));
        assert(s.take(i as int).last() == s[i - 1]);
        assert(s.skip(i - 1) =~= seq![s[i - 1]] + s.skip(i as int));
        i = i - 1;
    }
    proof {
        if i > 0 {
            assert(s.take(i as int).last() == s[i - 1]);
        }
    }
    let ghost added = p@;
    v.insert(i, p);
    assert(params(v@) =~= s.take(i as int).push(added) + s.skip(i as int));
}

/// Sorts parameters by key for consistent ordering; parameters with equal keys stay
/// in their order.
pub fn sort_params(list: Vec<QueryParam>) -> (r: Vec<QueryParam>)
    ensures
        params(r@) == sorted_by_key(params(list@)),
{
    let ghost all = params(list@);
    let mut sorted: Vec<QueryParam> = Vec::new();
    assert(params(sorted@) =~= sorted_by_key(all.take(0)));
    for p in it: list
        invariant
            it.seq() == list@,
            all == params(list@),
            params(sorted@) == sorted_by_key(all.take(it.index())),
    {
        let ghost i = it.index();
        assert(all.take(i + 1).drop_last() =~= all.take(i));
        assert(all.take(i + 1).last() == p@);
        insert_sorted(&mut sorted, p);
    }
    assert(all.take(all.len() as int) =~= all);
    sorted
}

// ---------------------------------------------------------------------------
// What sorting does
// ---------------------------------------------------------------------------

/// Holds of the parameters with the given key.
pub open spec fn has_key(key: Seq<char>) -> spec_fn(Param) -> bool {
    |p: Param| p.key == key
}

proof fn lemma_filter_push(s: Seq<Param>, p: Param, pred: spec_fn(Param) -> bool)
    ensures
        s.push(p).filter(pred) == if pred(p) {
            s.filter(pred).push(p)
        } else {
            s.filter(pred)
        },
{
    reveal(Seq::filter);
    assert(s.push(p).drop_last() =~= s);
}

proof fn lemma_filter_last(s: Seq<Param>, pred: spec_fn(Param) -> bool)
    requires
        s.len() > 0,
    ensures
        s.filter(pred) == if pred(s.last()) {
            s.drop_last().filter(pred).push(s.last())
        } else {
            s.drop_last().filter(pred)
        },
{
    reveal(Seq::filter);
}

proof fn lemma_insert_filter_len(s: Seq<Param>, p: Param, pred: spec_fn(Param) -> bool)
    ensures
        insert_by_key(s, p).filter(pred).len() == s.filter(pred).len() + if pred(p) {
            1int
        } else {
            0int
        },
    decreases s.len(),
{
    if s.len() == 0 || key_le(s.last().key, p.key) {
        lemma_filter_push(s, p, pred);
    } else {
        lemma_insert_filter_len(s.drop_last(), p, pred);
        lemma_filter_push(insert_by_key(s.drop_last(), p), s.last(), pred);
        lemma_filter_last(s, pred);
    }
}

/// Sorting keeps the number of parameters of every kind.
pub proof fn sorting_keeps_counts(s: Seq<Param>, pred: spec_fn(Param) -> bool)
    ensures
        sorted_by_key(s).filter(pred).len() == s.filter(pred).len(),
    decreases s.len(),
{
    if s.len() > 0 {
        sorting_keeps_counts(s.drop_last(), pred);
        lemma_insert_filter_len(sorted_by_key(s.drop_last()), s.last(), pred);
        lemma_filter_last(s, pred);
    }
}

proof fn lemma_insert_contains(s: Seq<Param>, p: Param, x: Param)
    ensures
        insert_by_key(s, p).contains(x) <==> x == p || s.contains(x),
    decreases s.len(),
{
    if s.len() == 0 || key_le(s.last().key, p.key) {
        lemma_contains_push(s, p, x);
    } else {
        lemma_insert_contains(s.drop_last(), p, x);
        lemma_contains_push(insert_by_key(s.drop_last(), p), s.last(), x);
        lemma_contains_push(s.drop_last(), s.last(), x);
        assert(s.drop_last().push(s.last()) =~= s);
    }
}

proof fn lemma_contains_push(s: Seq<Param>, p: Param, x: Param)
    ensures
        s.push(p).contains(x) <==> x == p || s.contains(x),
{
    if s.contains(x) {
        let i = choose|i: int| 0 <= i < s.len() && s[i] == x;
        assert(s.push(p)[i] == x);
    }
    assert(s.push(p)[s.len() as int] == p);
}

/// Sorting adds no parameter and loses none.
pub proof fn sorting_keeps_params(s: Seq<Param>, x: Param)
    ensures
        sorted_by_key(s).contains(x) <==> s.contains(x),
    decreases s.len(),
{
    if s.len() > 0 {
        sorting_keeps_params(s.drop_last(), x);
        lemma_insert_contains(sorted_by_key(s.drop_last()), s.last(), x);
        lemma_contains_push(s.drop_last(), s.last(), x);
        assert(s.drop_last().push(s.last()) =~= s);
    }
}

proof fn lemma_insert_in_order(s: Seq<Param>, p: Param)
    requires
        in_order(s),
    ensures
        in_order(insert_by_key(s, p)),
        insert_by_key(s, p).len() == s.len() + 1,
    decreases s.len(),
{
    let r = insert_by_key(s, p);
    if s.len() == 0 || key_le(s.last().key, p.key) {
        assert forall|i: int, j: int| 0 <= i <= j < r.len() implies key_le(
            #[trigger] r[i].key,
            #[trigger] r[j].key,
        ) by {
            key_order_is_total(p.key, p.key, p.key);
            if j == s.len() && i < s.len() {
                key_order_is_total(s[i].key, s.last().key, p.key);
            }
        }
    } else {
        let front = insert_by_key(s.drop_last(), p);
        lemma_insert_in_order(s.drop_last(), p);
        assert forall|i: int, j: int| 0 <= i <= j < r.len() implies key_le(
            #[trigger] r[i].key,
            #[trigger] r[j].key,
        ) by {
            key_order_is_total(s.last().key, p.key, p.key);
            if j == front.len() && i < front.len() {
                assert(front.contains(front[i]));
                lemma_insert_contains(s.drop_last(), p, front[i]);
                if front[i] != p {
                    let k = choose|k: int|
                        0 <= k < s.drop_last().len() && s.drop_last()[k] == front[i];
                    assert(s[k] == front[i]);
                }
            }
        }
    }
}

/// A sorted list is in order, and as long as before.
pub proof fn sorting_orders(s: Seq<Param>)
    ensures
        in_order(sorted_by_key(s)),
        sorted_by_key(s).len() == s.len(),
    decreases s.len(),
{
    if s.len() > 0 {
        sorting_orders(s.drop_last());
        lemma_insert_in_order(sorted_by_key(s.drop_last()), s.last());
    }
}

/// Sorting leaves a list that is in order as it is.
pub proof fn sorting_again_changes_nothing(s: Seq<Param>)
    requires
        in_order(s),
    ensures
        sorted_by_key(s) == s,
    decreases s.len(),
{
    if s.len() > 0 {
        sorting_again_changes_nothing(s.drop_last());
        assert(s.drop_last().push(s.last()) =~= s);
        if s.len() > 1 {
            assert(s.drop_last().last() == s[s.len() - 2]);
        }
    }
}

proof fn lemma_insert_stable(s: Seq<Param>, p: Param, key: Seq<char>)
    ensures
        insert_by_key(s, p).filter(has_key(key)) == if p.key == key {
            s.filter(has_key(key)).push(p)
        } else {
            s.filter(has_key(key))
        },
    decreases s.len(),
{
    if s.len() == 0 || key_le(s.last().key, p.key) {
        lemma_filter_push(s, p, has_key(key));
    } else {
        key_order_is_total(p.key, p.key, p.key);
        lemma_insert_stable(s.drop_last(), p, key);
        lemma_filter_push(insert_by_key(s.drop_last(), p), s.last(), has_key(key));
        lemma_filter_last(s, has_key(key));
    }
}

/// Sorting is stable: the parameters with one key stay in their order.
pub proof fn sorting_is_stable(s: Seq<Param>, key: Seq<char>)
    ensures
        sorted_by_key(s).filter(has_key(key)) == s.filter(has_key(key)),
    decreases s.len(),
{
    if s.len() > 0 {
        sorting_is_stable(s.drop_last(), key);
        lemma_insert_stable(sorted_by_key(s.drop_last()), s.last(), key);
        lemma_filter_last(s, has_key(key));
    }
}

proof fn lemma_order_determines(a: Seq<Param>, b: Seq<Param>)
    requires
        in_order(a),
        in_order(b),
        forall|key: Seq<char>| #[trigger] a.filter(has_key(key)) == b.filter(has_key(key)),
    ensures
        a == b,
    decreases a.len(),
{
    if a.len() == 0 {
        if b.len() > 0 {
            let key = b.last().key;
            lemma_filter_last(b, has_key(key));
            assert(a.filter(has_key(key)) == b.filter(has_key(key)));
            reveal(Seq::filter);
            assert(false);
        }
        assert(a =~= b);
    } else {
        let x = a.last();
        lemma_filter_last(a, has_key(x.key));
        assert(b.filter(has_key(x.key)) == a.filter(has_key(x.key)));
        let fx = b.filter(has_key(x.key));
        assert(fx.last() == x);
        assert(fx.contains(x));
        b.lemma_filter_contains_rev(has_key(x.key), x);
        let i = choose|i: int| 0 <= i < b.len() && b[i] == x;
        let y = b.last();
        lemma_filter_last(b, has_key(y.key));
        assert(a.filter(has_key(y.key)) == b.filter(has_key(y.key)));
        let fy = a.filter(has_key(y.key));
        assert(fy.last() == y);
        assert(fy.contains(y));
        a.lemma_filter_contains_rev(has_key(y.key), y);
        let j = choose|j: int| 0 <= j < a.len() && a[j] == y;
        assert(key_le(b[i].key, b[b.len() - 1].key));
        assert(key_le(a[j].key, a[a.len() - 1].key));
        key_order_is_total(x.key, y.key, y.key);
        assert(x == y);
        assert forall|key: Seq<char>| #[trigger]
            a.drop_last().filter(has_key(key)) == b.drop_last().filter(has_key(key)) by {
            lemma_filter_last(a, has_key(key));
            lemma_filter_last(b, has_key(key));
            assert(a.filter(has_key(key)) == b.filter(has_key(key)));
            if x.key == key {
                assert(a.filter(has_key(key)).drop_last() =~= a.drop_last().filter(has_key(key)));
                assert(b.filter(has_key(key)).drop_last() =~= b.drop_last().filter(has_key(key)));
            }
        }
        lemma_order_determines(a.drop_last(), b.drop_last());
        assert(a.drop_last().push(x) =~= a);
        assert(b.drop_last().push(y) =~= b);
    }
}

/// The order in which parameters with different keys stand makes no difference: two
/// lists that agree key by key are sorted into the same list.
pub proof fn order_across_keys_is_irrelevant(a: Seq<Param>, b: Seq<Param>)
    requires
        forall|key: Seq<char>| #[trigger] a.filter(has_key(key)) == b.filter(has_key(key)),
    ensures
        sorted_by_key(a) == sorted_by_key(b),
{
    sorting_orders(a);
    sorting_orders(b);
    assert forall|key: Seq<char>| #[trigger]
        sorted_by_key(a).filter(has_key(key)) == sorted_by_key(b).filter(has_key(key)) by {
        sorting_is_stable(a, key);
        sorting_is_stable(b, key);
        assert(a.filter(has_key(key)) == b.filter(has_key(key)));
    }
    lemma_order_determines(sorted_by_key(a), sorted_by_key(b));
}

} // verus!
