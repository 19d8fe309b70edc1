//! Characters and strings: the text operations that the rest of the library is
//! built from, each stated over the sequence of characters of a string.
use vstd::prelude::*;

verus! {

// ---------------------------------------------------------------------------
// What is taken from the standard library
// ---------------------------------------------------------------------------

/// `String::push`: appends the character at the end of the string.
pub assume_specification[ String::push ](s: &mut String, c: char)
    ensures
        final(s)@ == old(s)@.push(c),
;

/// What `str::to_lowercase` gives for a text with a character outside ASCII: the
/// Unicode lowercase mapping of the text.
pub uninterp spec fn unicode_lowercase(s: Seq<char>) -> Seq<char>;

/// `str::to_lowercase`: an ASCII text has its letters `A` to `Z` mapped to `a` to
/// `z` and nothing else changed. Of other texts the result depends on the text
/// alone.
pub assume_specification[ str::to_lowercase ](s: &str) -> (r: String)
    ensures
        vstd::utf8::is_ascii_chars(s@) ==> r@ == ascii_lowercase(s@),
        !vstd::utf8::is_ascii_chars(s@) ==> r@ == unicode_lowercase(s@),
;

/// Whether a character has the Unicode property `White_Space`.
pub open spec fn whitespace(c: char) -> bool {
    ||| 0x9 <= c as u32 <= 0xd || c as u32 == 0x20 || c as u32 == 0x85 || c as u32 == 0xa0
    ||| c as u32 == 0x1680 || 0x2000 <= c as u32 <= 0x200a || c as u32 == 0x2028
    ||| c as u32 == 0x2029 || c as u32 == 0x202f || c as u32 == 0x205f || c as u32 == 0x3000
}

/// `char::is_whitespace`: tells the characters with the Unicode property `White_Space`.
pub assume_specification[ char::is_whitespace ](c: char) -> (r: bool)
    ensures
        r == whitespace(c),
;

// ---------------------------------------------------------------------------
// Letter case
// ---------------------------------------------------------------------------

/// The lowercase form of an ASCII letter; every other character stays.
pub open spec fn ascii_lowercase_char(c: char) -> char {
    if 'A' <= c <= 'Z' {
        (c as int + 32) as char
    } else {
        c
    }
}

/// `s` with its ASCII letters in lowercase.
pub open spec fn ascii_lowercase(s: Seq<char>) -> Seq<char> {
    Seq::new(s.len(), |i: int| ascii_lowercase_char(s[i]))
}

/// The lowercase form of a text.
pub open spec fn lowercase(s: Seq<char>) -> Seq<char> {
    if vstd::utf8::is_ascii_chars(s) {
        ascii_lowercase(s)
    } else {
        unicode_lowercase(s)
    }
}

/// An ASCII text stays ASCII in lowercase, and lowercase again changes nothing.
pub proof fn lemma_lowercase_ascii(s: Seq<char>)
    requires
        vstd::utf8::is_ascii_chars(s),
    ensures
        vstd::utf8::is_ascii_chars(lowercase(s)),
        lowercase(lowercase(s)) == lowercase(s),
{
    assert(lowercase(lowercase(s)) =~= lowercase(s));
}

// ---------------------------------------------------------------------------
// Characters in and out of strings
// ---------------------------------------------------------------------------

/// The texts of a list of strings.
pub open spec fn texts(v: Seq<String>) -> Seq<Seq<char>> {
    Seq::new(v.len(), |i: int| v[i]@)
}

/// The characters of `s`, one by one.
pub fn to_chars(s: &str) -> (r: Vec<char>)
    ensures
        r@ == s@,
{
    let mut r: Vec<char> = Vec::new();
    for c in it: s.chars()
        invariant
            it.seq() == s@,
            r@ == s@.take(it.index()),
    {
        r.push(c);
    }
    assert(s@.take(s@.len() as int) =~= s@);
    r
}

/// The string of the characters `from..to` of `v`.
pub fn from_chars(v: &Vec<char>, from: usize, to: usize) -> (r: String)
    requires
        from <= to <= v@.len(),
    ensures
        r@ == v@.subrange(from as int, to as int),
{
    let mut r: String = String::new();
    let mut i: usize = from;
    while i < to
        invariant
            from <= i <= to <= v@.len(),
            r@ == v@.subrange(from as int, i as int),
        decreases to - i,
    {
        r.push(v[i]);
        assert(v@.subrange(from as int, i + 1) =~= v@.subrange(from as int, i as int).push(
            v@[i as int],
        ));
        i = i + 1;
    }
    r
}

/// Whether two strings hold the same text.
pub fn same(a: &str, b: &str) -> (r: bool)
    ensures
        r == (a@ == b@),
{
    let x = a.as_bytes();
    let y = b.as_bytes();
    proof {
        vstd::utf8::encode_utf8_decode_utf8(a@);
        vstd::utf8::encode_utf8_decode_utf8(b@);
    }
    if x.len() != y.len() {
        return false;
    }
    let mut i: usize = 0;
    while i < x.len()
        invariant
            i <= x@.len(),
            x@.len() == y@.len(),
            x@ == vstd::utf8::encode_utf8(a@),
            y@ == vstd::utf8::encode_utf8(b@),
            forall|j: int| 0 <= j < i ==> x@[j] == y@[j],
        decreases x@.len() - i,
    {
        if x[i] != y[i] {
            return false;
        }
        i = i + 1;
    }
    assert(x@ =~= y@);
    true
}

/// How often `c` occurs in `s`.
pub open spec fn count(s: Seq<char>, c: char) -> nat {
    s.filter(|x: char| x == c).len()
}

/// How often `c` occurs in `s`.
pub fn count_char(s: &str, c: char) -> (r: usize)
    ensures
        r == count(s@, c),
{
    let chars = to_chars(s);
    let mut n: usize = 0;
    let mut i: usize = 0;
    proof {
        reveal(Seq::filter);
    }
    while i < chars.len()
        invariant
            i <= chars@.len(),
            n <= i,
            chars@ == s@,
            n == count(s@.take(i as int), c),
        decreases chars@.len() - i,
    {
        proof {
            reveal(Seq::filter);
            assert(s@.take(i + 1).drop_last() =~= s@.take(i as int));
            assert(s@.take(i + 1).last() == s@[i as int]);
        }
        if chars[i] == c {
            n = n + 1;
        }
        i = i + 1;
    }
    assert(s@.take(s@.len() as int) =~= s@);
    n
}

// ---------------------------------------------------------------------------
// Splitting and joining
// ---------------------------------------------------------------------------

/// The pieces of `s` between the occurrences of `sep`: one more than there are
/// occurrences, empty pieces included.
pub open spec fn split_on(s: Seq<char>, sep: char) -> Seq<Seq<char>>
    decreases s.len(),
{
    if s.len() == 0 {
        seq![Seq::<char>::empty()]
    } else {
        let front = split_on(s.drop_last(), sep);
        if s.last() == sep {
            front.push(Seq::<char>::empty())
        } else {
            front.drop_last().push(front.last().push(s.last()))
        }
    }
}

/// The part of `s` before the first `sep`: all of `s` where there is none.
pub open spec fn before(s: Seq<char>, sep: char) -> Seq<char>
    decreases s.len(),
{
    if s.len() == 0 || s[0] == sep {
        Seq::<char>::empty()
    } else {
        seq![s[0]] + before(s.skip(1), sep)
    }
}

/// The part of `s` after the first `sep`: empty where there is none.
pub open spec fn after(s: Seq<char>, sep: char) -> Seq<char>
    decreases s.len(),
{
    if s.len() == 0 {
        Seq::<char>::empty()
    } else if s[0] == sep {
        s.skip(1)
    } else {
        after(s.skip(1), sep)
    }
}

/// The pieces one after the other, with `sep` between them.
pub open spec fn join(parts: Seq<Seq<char>>, sep: char) -> Seq<char>
    decreases parts.len(),
{
    if parts.len() == 0 {
        Seq::<char>::empty()
    } else if parts.len() == 1 {
        parts[0]
    } else {
        join(parts.drop_last(), sep).push(sep) + parts.last()
    }
}

/// Splits `s` at every `sep`.
pub fn split(s: &str, sep: char) -> (r: Vec<String>)
    ensures
        texts(r@) == split_on(s@, sep),
{
    let chars = to_chars(s);
    let mut done: Vec<String> = Vec::new();
    let mut current: String = String::new();
    let mut i: usize = 0;
    assert(texts(done@).push(current@) =~= split_on(s@.take(0), sep));
    while i < chars.len()
        invariant
            i <= chars@.len(),
            chars@ == s@,
            texts(done@).push(current@) == split_on(s@.take(i as int), sep),
        decreases chars@.len() - i,
    {
        let c = chars[i];
        proof {
            assert(s@.take(i + 1).drop_last() =~= s@.take(i as int));
            assert(texts(done@).push(current@).drop_last() =~= texts(done@));
        }
        if c == sep {
            let ghost old_done = done@;
            let ghost old_current = current@;
            done.push(current);
            current = String::new();
            assert(texts(done@) =~= texts(old_done).push(old_current));
        } else {
            current.push(c);
        }
        i = i + 1;
    }
    assert(s@.take(s@.len() as int) =~= s@);
    let ghost old_done = done@;
    let ghost old_current = current@;
    done.push(current);
    assert(texts(done@) =~= texts(old_done).push(old_current));
    done
}

/// Splits `s` at the first `sep`: what stands before it and what stands after it.
pub fn split_first(s: &str, sep: char) -> (r: (String, String))
    ensures
        r.0@ == before(s@, sep),
        r.1@ == after(s@, sep),
{
    let chars = to_chars(s);
    let mut i: usize = 0;
    assert(s@.skip(0) =~= s@);
    while i < chars.len() && chars[i] != sep
        invariant
            i <= chars@.len(),
            chars@ == s@,
            before(s@, sep) =~= s@.take(i as int) + before(s@.skip(i as int), sep),
            after(s@, sep) == after(s@.skip(i as int), sep),
        decreases chars@.len() - i,
    {
        assert(s@.skip(i as int).skip(1) =~= s@.skip(i + 1));
        assert(s@.take(i + 1) =~= s@.take(i as int).push(s@[i as int]));
        i = i + 1;
    }
    let head = from_chars(&chars, 0, i);
    assert(head@ =~= before(s@, sep));
    if i < chars.len() {
        let tail = from_chars(&chars, i + 1, chars.len());
        assert(s@.skip(i as int).skip(1) =~= tail@);
        (head, tail)
    } else {
        (head, String::new())
    }
}

/// Joins `parts` with `sep` between them.
pub fn join_strings(parts: &Vec<String>, sep: char) -> (r: String)
    ensures
        r@ == join(texts(parts@), sep),
{
    let mut r: String = String::new();
    let mut i: usize = 0;
    assert(texts(parts@).take(0) =~= Seq::<Seq<char>>::empty());
    while i < parts.len()
        invariant
            i <= parts@.len(),
            r@ == join(texts(parts@).take(i as int), sep),
        decreases parts@.len() - i,
    {
        proof {
            assert(texts(parts@).take(i + 1).drop_last() =~= texts(parts@).take(i as int));
            assert(texts(parts@).take(i + 1).last() == parts@[i as int]@);
        }
        if i > 0 {
            r.push(sep);
        }
        r.append(parts[i].as_str());
        assert(i == 0 ==> r@ =~= parts@[0]@);
        i = i + 1;
    }
    assert(texts(parts@).take(parts@.len() as int) =~= texts(parts@));
    r
}

// ---------------------------------------------------------------------------
// Prefixes, suffixes, replacement
// ---------------------------------------------------------------------------

/// `s` with every occurrence of `pat` replaced by `rep`, taken from the left and
/// without overlap.
pub open spec fn replace_all(s: Seq<char>, pat: Seq<char>, rep: Seq<char>) -> Seq<char>
    decreases s.len(),
{
    if pat.len() == 0 || s.len() == 0 {
        s
    } else if pat.is_prefix_of(s) {
        rep + replace_all(s.skip(pat.len() as int), pat, rep)
    } else {
        seq![s[0]] + replace_all(s.skip(1), pat, rep)
    }
}

/// `s` without the copies of `pat` that it starts with.
pub open spec fn strip_leading(s: Seq<char>, pat: Seq<char>) -> Seq<char>
    decreases s.len(),
{
    if pat.len() > 0 && s.len() > 0 && pat.is_prefix_of(s) {
        strip_leading(s.skip(pat.len() as int), pat)
    } else {
        s
    }
}

/// `s` without the copies of `c` that it ends with.
pub open spec fn strip_trailing(s: Seq<char>, c: char) -> Seq<char>
    decreases s.len(),
{
    if s.len() > 0 && s.last() == c {
        strip_trailing(s.drop_last(), c)
    } else {
        s
    }
}

/// `s` without the whitespace that it starts with.
pub open spec fn trim_front(s: Seq<char>) -> Seq<char>
    decreases s.len(),
{
    if s.len() > 0 && whitespace(s[0]) {
        trim_front(s.skip(1))
    } else {
        s
    }
}

/// `s` without the whitespace that it ends with.
pub open spec fn trim_back(s: Seq<char>) -> Seq<char>
    decreases s.len(),
{
    if s.len() > 0 && whitespace(s.last()) {
        trim_back(s.drop_last())
    } else {
        s
    }
}

/// `s` without the whitespace around it.
pub open spec fn trimmed(s: Seq<char>) -> Seq<char> {
    trim_back(trim_front(s))
}

/// Whether `pat` stands at position `at` of `v`.
pub fn stands_at(v: &Vec<char>, at: usize, pat: &Vec<char>) -> (r: bool)
    requires
        at <= v@.len(),
    ensures
        r == pat@.is_prefix_of(v@.skip(at as int)),
{
    let len = v.len();
    if len - at < pat.len() {
        return false;
    }
    let mut i: usize = 0;
    while i < pat.len()
        invariant
            i <= pat@.len(),
            at + pat@.len() <= v@.len(),
            len == v@.len(),
            forall|j: int| 0 <= j < i ==> pat@[j] == v@[at + j],
        decreases pat@.len() - i,
    {
        if v[at + i] != pat[i] {
            assert(v@.skip(at as int)[i as int] != pat@[i as int]);
            assert(v@.skip(at as int).subrange(0, pat@.len() as int)[i as int] != pat@[i as int]);
            return false;
        }
        i = i + 1;
    }
    assert(pat@ =~= v@.skip(at as int).subrange(0, pat@.len() as int));
    true
}

/// Whether `s` starts with `pat`.
pub fn has_prefix(s: &str, pat: &str) -> (r: bool)
    ensures
        r == pat@.is_prefix_of(s@),
{
    let chars = to_chars(s);
    let pattern = to_chars(pat);
    assert(chars@.skip(0) =~= s@);
    stands_at(&chars, 0, &pattern)
}

/// Replaces every occurrence of `pat` in `s` by `rep`.
pub fn replace(s: &str, pat: &str, rep: &str) -> (r: String)
    requires
        pat@.len() > 0,
    ensures
        r@ == replace_all(s@, pat@, rep@),
{
    let chars = to_chars(s);
    let pattern = to_chars(pat);
    let mut out: String = String::new();
    let mut i: usize = 0;
    assert(s@.skip(0) =~= s@);
    while i < chars.len()
        invariant
            i <= chars@.len(),
            chars@ == s@,
            pattern@ == pat@,
            pat@.len() > 0,
            out@ + replace_all(s@.skip(i as int), pat@, rep@) =~= replace_all(s@, pat@, rep@),
        decreases chars@.len() - i,
    {
        if stands_at(&chars, i, &pattern) {
            assert(s@.skip(i as int).skip(pat@.len() as int) =~= s@.skip(i + pat@.len()));
            out.append(rep);
            i = i + pattern.len();
        } else {
            assert(s@.skip(i as int).skip(1) =~= s@.skip(i + 1));
            out.push(chars[i]);
            i = i + 1;
        }
    }
    assert(out@ =~= replace_all(s@, pat@, rep@));
    out
}

/// Removes the copies of `pat` that `s` starts with.
pub fn without_leading(s: &str, pat: &str) -> (r: String)
    requires
        pat@.len() > 0,
    ensures
        r@ == strip_leading(s@, pat@),
{
    let chars = to_chars(s);
    let pattern = to_chars(pat);
    let len = chars.len();
    let mut i: usize = 0;
    assert(s@.skip(0) =~= s@);
    while stands_at(&chars, i, &pattern)
        invariant
            i <= chars@.len(),
            len == chars@.len(),
            chars@ == s@,
            pattern@ == pat@,
            pat@.len() > 0,
            strip_leading(s@.skip(i as int), pat@) == strip_leading(s@, pat@),
        decreases chars@.len() - i,
    {
        assert(s@.skip(i as int).skip(pat@.len() as int) =~= s@.skip(i + pat@.len()));
        i = i + pattern.len();
    }
    assert(s@.skip(i as int) =~= s@.subrange(i as int, s@.len() as int));
    from_chars(&chars, i, len)
}

/// Removes the copies of `c` that `s` ends with.
pub fn without_trailing(s: &str, c: char) -> (r: String)
    ensures
        r@ == strip_trailing(s@, c),
{
    let chars = to_chars(s);
    let mut end: usize = chars.len();
    assert(s@.take(s@.len() as int) =~= s@);
    while end > 0 && chars[end - 1] == c
        invariant
            end <= chars@.len(),
            chars@ == s@,
            strip_trailing(s@.take(end as int), c) == strip_trailing(s@, c),
        decreases end,
    {
        assert(s@.take(end as int).drop_last() =~= s@.take(end - 1));
        end = end - 1;
    }
    assert(s@.take(end as int) =~= s@.subrange(0, end as int));
    from_chars(&chars, 0, end)
}

/// Removes the whitespace around `s`.
pub fn trim(s: &str) -> (r: String)
    ensures
        r@ == trimmed(s@),
{
    let chars = to_chars(s);
    let mut start: usize = 0;
    assert(s@.skip(0) =~= s@);
    while start < chars.len() && chars[start].is_whitespace()
        invariant
            start <= chars@.len(),
            chars@ == s@,
            trim_front(s@.skip(start as int)) == trim_front(s@),
        decreases chars@.len() - start,
    {
        assert(s@.skip(start as int).skip(1) =~= s@.skip(start + 1));
        start = start + 1;
    }
    let ghost kept = s@.skip(start as int);
    let mut end: usize = chars.len();
    assert(s@.subrange(start as int, s@.len() as int) =~= kept);
    while end > start && chars[end - 1].is_whitespace()
        invariant
            start <= end <= chars@.len(),
            chars@ == s@,
            trim_back(s@.subrange(start as int, end as int)) == trim_back(kept),
        decreases end,
    {
        assert(s@.subrange(start as int, end as int).drop_last() =~= s@.subrange(
            start as int,
            end - 1,
        ));
        end = end - 1;
    }
    from_chars(&chars, start, end)
}

// ---------------------------------------------------------------------------
// Numbers
// ---------------------------------------------------------------------------

/// `n` in decimal, without leading zeros.
pub open spec fn decimal(n: nat) -> Seq<char>
    decreases n,
{
    if n < 10 {
        seq![(48 + n) as char]
    } else {
        decimal(n / 10).push((48 + n % 10) as char)
    }
}

/// Appends `n` in decimal to `out`.
pub fn push_decimal(out: &mut String, n: u16)
    ensures
        final(out)@ == old(out)@ + decimal(n as nat),
    decreases n,
{
    if n >= 10 {
        push_decimal(out, n / 10);
    }
    let digit: u8 = (n % 10) as u8;
    out.push((48u8 + digit) as char);
    assert(out@ =~= old(out)@ + decimal(n as nat));
}

// ---------------------------------------------------------------------------
// Splitting what was joined
// ---------------------------------------------------------------------------

/// A text has at least one piece.
pub proof fn lemma_split_not_empty(s: Seq<char>, sep: char)
    ensures
        split_on(s, sep).len() > 0,
    decreases s.len(),
{
    if s.len() > 0 {
        lemma_split_not_empty(s.drop_last(), sep);
    }
}

proof fn lemma_split_append(s: Seq<char>, t: Seq<char>, sep: char)
    requires
        !t.contains(sep),
    ensures
        split_on(s.push(sep) + t, sep) == split_on(s, sep).push(t),
    decreases t.len(),
{
    let whole = s.push(sep) + t;
    if t.len() == 0 {
        assert(whole =~= s.push(sep));
        assert(s.push(sep).drop_last() =~= s);
        assert(t =~= Seq::<char>::empty());
    } else {
        assert(t.contains(t.last()));
        assert(!t.drop_last().contains(sep)) by {
            if t.drop_last().contains(sep) {
                let i = choose|i: int| 0 <= i < t.drop_last().len() && t.drop_last()[i] == sep;
                assert(t[i] == sep);
            }
        }
        lemma_split_append(s, t.drop_last(), sep);
        assert(whole.drop_last() =~= s.push(sep) + t.drop_last());
        assert(whole.last() == t.last());
        let front = split_on(s, sep).push(t.drop_last());
        assert(front.drop_last() =~= split_on(s, sep));
        assert(t.drop_last().push(t.last()) =~= t);
    }
}

proof fn lemma_split_single(t: Seq<char>, sep: char)
    requires
        !t.contains(sep),
    ensures
        split_on(t, sep) == seq![t],
    decreases t.len(),
{
    if t.len() == 0 {
        assert(t =~= Seq::<char>::empty());
    } else {
        assert(t.contains(t.last()));
        assert(!t.drop_last().contains(sep)) by {
            if t.drop_last().contains(sep) {
                let i = choose|i: int| 0 <= i < t.drop_last().len() && t.drop_last()[i] == sep;
                assert(t[i] == sep);
            }
        }
        lemma_split_single(t.drop_last(), sep);
        assert(t.drop_last().push(t.last()) =~= t);
        assert(split_on(t, sep) =~= seq![t]);
    }
}

/// Splitting gives back the pieces that were joined, where no piece holds the
/// separator.
pub proof fn split_undoes_join(parts: Seq<Seq<char>>, sep: char)
    requires
        parts.len() > 0,
        forall|i: int| 0 <= i < parts.len() ==> !(#[trigger] parts[i]).contains(sep),
    ensures
        split_on(join(parts, sep), sep) == parts,
    decreases parts.len(),
{
    if parts.len() == 1 {
        lemma_split_single(parts[0], sep);
        assert(seq![parts[0]] =~= parts);
    } else {
        let front = parts.drop_last();
        assert forall|i: int| 0 <= i < front.len() implies !(#[trigger] front[i]).contains(sep) by {
            assert(front[i] == parts[i]);
        }
        split_undoes_join(front, sep);
        lemma_split_append(join(front, sep), parts.last(), sep);
        assert(front.push(parts.last()) =~= parts);
    }
}

/// A text without the separator stands before it, and nothing after it.
pub proof fn lemma_before_none(s: Seq<char>, sep: char)
    requires
        !s.contains(sep),
    ensures
        before(s, sep) == s,
        after(s, sep) == Seq::<char>::empty(),
    decreases s.len(),
{
    if s.len() > 0 {
        assert(s.contains(s[0]));
        assert(!s.skip(1).contains(sep)) by {
            if s.skip(1).contains(sep) {
                let i = choose|i: int| 0 <= i < s.skip(1).len() && s.skip(1)[i] == sep;
                assert(s[i + 1] == sep);
            }
        }
        lemma_before_none(s.skip(1), sep);
        assert(seq![s[0]] + s.skip(1) =~= s);
    } else {
        assert(s =~= Seq::<char>::empty());
    }
}

/// Two texts with the separator between them are told apart at the first separator.
pub proof fn lemma_before_pair(s: Seq<char>, sep: char, t: Seq<char>)
    requires
        !s.contains(sep),
    ensures
        before(s.push(sep) + t, sep) == s,
        after(s.push(sep) + t, sep) == t,
    decreases s.len(),
{
    let whole = s.push(sep) + t;
    if s.len() > 0 {
        assert(s.contains(s[0]));
        assert(!s.skip(1).contains(sep)) by {
            if s.skip(1).contains(sep) {
                let i = choose|i: int| 0 <= i < s.skip(1).len() && s.skip(1)[i] == sep;
                assert(s[i + 1] == sep);
            }
        }
        lemma_before_pair(s.skip(1), sep, t);
        assert(whole.skip(1) =~= s.skip(1).push(sep) + t);
        assert(seq![s[0]] + s.skip(1) =~= s);
    } else {
        assert(s =~= Seq::<char>::empty());
        assert(whole.skip(1) =~= t);
    }
}

// ---------------------------------------------------------------------------
// What the operations are for
// ---------------------------------------------------------------------------

/// Lowercase keeps an ASCII text in length, moves the letters `A` to `Z` to `a` to `z`, and
/// leaves every other character alone. Any other text has its Unicode lowercase form.
pub proof fn lowercase_moves_capitals_only(s: Seq<char>)
    ensures
        vstd::utf8::is_ascii_chars(s) ==> lowercase(s).len() == s.len(),
        vstd::utf8::is_ascii_chars(s) ==> forall|i: int|
            0 <= i < s.len() ==> {
                let (from, to) = (#[trigger] s[i] as int, lowercase(s)[i] as int);
                if 65 <= from <= 90 {
                    to == from + 32
                } else {
                    to == from
                }
            },
        !vstd::utf8::is_ascii_chars(s) ==> lowercase(s) == unicode_lowercase(s),
{
}

/// Counting goes character by character.
pub proof fn counting_goes_by_character(s: Seq<char>, x: char, c: char)
    ensures
        count(Seq::<char>::empty(), c) == 0,
        x == c ==> count(s.push(x), c) == count(s, c) + 1,
        x != c ==> count(s.push(x), c) == count(s, c),
{
    reveal(Seq::filter);
    assert(s.push(x).drop_last() =~= s);
}

/// Joining puts one separator between two pieces, and nothing before the first and behind
/// the last.
pub proof fn joining_puts_one_separator_between(parts: Seq<Seq<char>>, piece: Seq<char>, sep: char)
    ensures
        join(Seq::<Seq<char>>::empty(), sep) == Seq::<char>::empty(),
        join(seq![piece], sep) == piece,
        parts.len() > 0 ==> join(parts.push(piece), sep) == join(parts, sep).push(sep) + piece,
{
    assert(parts.push(piece).drop_last() =~= parts);
}

/// Splitting loses nothing: the pieces hold no separator, and joined they are the text.
pub proof fn join_undoes_split(s: Seq<char>, sep: char)
    ensures
        split_on(s, sep).len() > 0,
        forall|i: int|
            0 <= i < split_on(s, sep).len() ==> !(#[trigger] split_on(s, sep)[i]).contains(sep),
        join(split_on(s, sep), sep) == s,
    decreases s.len(),
{
    let pieces = split_on(s, sep);
    if s.len() > 0 {
        join_undoes_split(s.drop_last(), sep);
        let front = split_on(s.drop_last(), sep);
        assert(s.drop_last().push(s.last()) =~= s);
        if s.last() == sep {
            assert(pieces.drop_last() =~= front);
            assert(join(pieces, sep) =~= s);
        } else {
            assert(pieces.drop_last() =~= front.drop_last());
            let (short, long) = (front.last(), pieces.last());
            assert(long == short.push(s.last()));
            assert(!long.contains(sep)) by {
                if long.contains(sep) {
                    let i = choose|i: int| 0 <= i < long.len() && long[i] == sep;
                    if i < short.len() {
                        assert(short[i] == sep);
                    }
                    assert(!front[front.len() - 1].contains(sep));
                }
            }
            assert forall|i: int| 0 <= i < pieces.len() implies !(#[trigger] pieces[i]).contains(
                sep,
            ) by {
                if i < front.len() - 1 {
                    assert(pieces[i] == front[i]);
                }
            }
            assert(join(pieces, sep) =~= s);
        }
    }
}

/// What stands before the first separator holds none, and with the separator and what
/// stands after it is the text again. Where there is none, all of the text stands before.
pub proof fn first_separator_divides(s: Seq<char>, sep: char)
    ensures
        !before(s, sep).contains(sep),
        s.contains(sep) ==> s == before(s, sep).push(sep) + after(s, sep),
        !s.contains(sep) ==> before(s, sep) == s && after(s, sep).len() == 0,
    decreases s.len(),
{
    if s.len() > 0 && s[0] != sep {
        let rest = s.skip(1);
        first_separator_divides(rest, sep);
        if before(s, sep).contains(sep) {
            let i = choose|i: int| 0 <= i < before(s, sep).len() && before(s, sep)[i] == sep;
            assert(before(rest, sep)[i - 1] == sep);
        }
        assert(rest.contains(sep) <==> s.contains(sep)) by {
            if rest.contains(sep) {
                let i = choose|i: int| 0 <= i < rest.len() && rest[i] == sep;
                assert(s[i + 1] == sep);
            }
            if s.contains(sep) {
                let i = choose|i: int| 0 <= i < s.len() && s[i] == sep;
                assert(rest[i - 1] == sep);
            }
        }
        assert(seq![s[0]] + rest =~= s);
        if s.contains(sep) {
            assert(before(s, sep).push(sep) + after(s, sep) =~= seq![s[0]] + (before(
                rest,
                sep,
            ).push(sep) + after(rest, sep)));
        }
    } else if s.len() > 0 {
        assert(s.contains(s[0]));
        assert(before(s, sep).push(sep) + after(s, sep) =~= s);
    }
}

/// Replacement goes from the left: where the pattern stands, its replacement is written and
/// the work goes on behind it; any other character stays.
pub proof fn replacement_goes_from_the_left(s: Seq<char>, pat: Seq<char>, rep: Seq<char>)
    requires
        pat.len() > 0,
    ensures
        replace_all(Seq::<char>::empty(), pat, rep) == Seq::<char>::empty(),
        replace_all(pat + s, pat, rep) == rep + replace_all(s, pat, rep),
        s.len() > 0 && !pat.is_prefix_of(s) ==> replace_all(s, pat, rep) == seq![s[0]]
            + replace_all(s.skip(1), pat, rep),
{
    assert(pat =~= (pat + s).subrange(0, pat.len() as int));
    assert((pat + s).skip(pat.len() as int) =~= s);
}

/// A copy of the pattern in front makes no difference; where none stands there, nothing is
/// taken away.
pub proof fn leading_copies_go(s: Seq<char>, pat: Seq<char>)
    requires
        pat.len() > 0,
    ensures
        strip_leading(pat + s, pat) == strip_leading(s, pat),
        !pat.is_prefix_of(s) ==> strip_leading(s, pat) == s,
        !pat.is_prefix_of(strip_leading(s, pat)),
    decreases s.len(),
{
    assert(pat =~= (pat + s).subrange(0, pat.len() as int));
    assert((pat + s).skip(pat.len() as int) =~= s);
    if s.len() > 0 && pat.is_prefix_of(s) {
        leading_copies_go(s.skip(pat.len() as int), pat);
    }
}

/// A copy of the character at the end makes no difference; where none stands there, nothing
/// is taken away.
pub proof fn trailing_copies_go(s: Seq<char>, c: char)
    ensures
        strip_trailing(s.push(c), c) == strip_trailing(s, c),
        s.len() == 0 || s.last() != c ==> strip_trailing(s, c) == s,
{
    assert(s.push(c).drop_last() =~= s);
}

proof fn lemma_trim_front(s: Seq<char>) -> (a: int)
    ensures
        0 <= a <= s.len(),
        trim_front(s) == s.skip(a),
        forall|i: int| 0 <= i < a ==> whitespace(#[trigger] s[i]),
        a < s.len() ==> !whitespace(s[a]),
    decreases s.len(),
{
    if s.len() > 0 && whitespace(s[0]) {
        let b = lemma_trim_front(s.skip(1));
        assert(s.skip(1).skip(b) =~= s.skip(b + 1));
        assert forall|i: int| 0 <= i < b + 1 implies whitespace(#[trigger] s[i]) by {
            if i > 0 {
                assert(s.skip(1)[i - 1] == s[i]);
            }
        }
        b + 1
    } else {
        assert(s.skip(0) =~= s);
        0
    }
}

proof fn lemma_trim_back(s: Seq<char>) -> (b: int)
    ensures
        0 <= b <= s.len(),
        trim_back(s) == s.take(b),
        forall|i: int| b <= i < s.len() ==> whitespace(#[trigger] s[i]),
        b > 0 ==> !whitespace(s[b - 1]),
    decreases s.len(),
{
    if s.len() > 0 && whitespace(s.last()) {
        let b = lemma_trim_back(s.drop_last());
        assert(s.drop_last().take(b) =~= s.take(b));
        assert forall|i: int| b <= i < s.len() implies whitespace(#[trigger] s[i]) by {
            if i < s.len() - 1 {
                assert(s.drop_last()[i] == s[i]);
            }
        }
        b
    } else {
        assert(s.take(s.len() as int) =~= s);
        s.len() as int
    }
}

/// Whether `core` is what stands in `s` between the whitespace around it.
pub open spec fn is_core(s: Seq<char>, core: Seq<char>) -> bool {
    exists|a: int, b: int|
        0 <= a <= b <= s.len() && core == #[trigger] s.subrange(a, b) && (forall|i: int|
            0 <= i < a || b <= i < s.len() ==> whitespace(#[trigger] s[i])) && (a < b ==> !whitespace(
            s[a],
        ) && !whitespace(s[b - 1]))
}

/// Trimming takes away the whitespace around a text and nothing else.
pub proof fn trimming_leaves_the_core(s: Seq<char>, core: Seq<char>)
    ensures
        is_core(s, core) <==> trimmed(s) == core,
{
    let a = lemma_trim_front(s);
    let rest = s.skip(a);
    let n = lemma_trim_back(rest);
    let b = a + n;
    assert(rest.take(n) =~= s.subrange(a, b));
    assert forall|i: int| 0 <= i < a || b <= i < s.len() implies whitespace(#[trigger] s[i]) by {
        if b <= i {
            assert(rest[i - a] == s[i]);
        }
    }
    if a < b {
        assert(rest[n - 1] == s[b - 1]);
        assert(rest[0] == s[a]) by {
            assert(a < s.len());
        }
    }
    assert(is_core(s, s.subrange(a, b)));
    if is_core(s, core) {
        let (x, y) = choose|x: int, y: int|
            0 <= x <= y <= s.len() && core == #[trigger] s.subrange(x, y) && (forall|i: int|
                0 <= i < x || y <= i < s.len() ==> whitespace(#[trigger] s[i])) && (x < y
                ==> !whitespace(s[x]) && !whitespace(s[y - 1]));
        if x < y {
            assert(x >= a && y <= b) by {
                if x < a {
                    assert(whitespace(s[x]));
                }
                if y > b {
                    assert(whitespace(s[y - 1]));
                }
            }
            assert(a < b);
            assert(x == a && y == b) by {
                if a < x {
                    assert(whitespace(s[a]));
                }
                if b > y {
                    assert(whitespace(s[b - 1]));
                }
            }
        } else {
            if a < b {
                assert(whitespace(s[a]));
            }
            assert(core =~= s.subrange(a, b));
        }
    }
}

/// Numbers are written in digits from the left, without a zero in front.
pub proof fn decimal_adds_a_digit(n: nat, digit: nat)
    requires
        digit < 10,
    ensures
        decimal(digit).len() == 1,
        decimal(digit)[0] as int == '0' as int + digit,
        n > 0 ==> decimal(10 * n + digit) == decimal(n) + decimal(digit),
{
    if n > 0 {
        assert((10 * n + digit) / 10 == n);
        assert((10 * n + digit) % 10 == digit);
        assert(decimal(10 * n + digit) =~= decimal(n) + decimal(digit));
    }
}

} // verus!
