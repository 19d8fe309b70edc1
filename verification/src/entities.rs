//! HTML entities in URLs that were extracted from HTML attributes.
use crate::text;
use vstd::prelude::*;

verus! {

/// `s` with the common HTML entities replaced by the characters they stand for,
/// `&amp;` first.
pub open spec fn entities_decoded(s: Seq<char>) -> Seq<char> {
    let s1 = text::replace_all(s, "&amp;"@, "&"@);
    let s2 = text::replace_all(s1, "&quot;"@, "\""@);
    let s3 = text::replace_all(s2, "&lt;"@, "<"@);
    let s4 = text::replace_all(s3, "&gt;"@, ">"@);
    let s5 = text::replace_all(s4, "&#39;"@, "'"@);
    text::replace_all(s5, "&apos;"@, "'"@)
}

/// A text in which some character of a pattern does not occur stays as it is.
pub proof fn lemma_replace_absent(s: Seq<char>, pat: Seq<char>, rep: Seq<char>, k: int)
    requires
        0 <= k < pat.len(),
        !s.contains(pat[k]),
    ensures
        text::replace_all(s, pat, rep) == s,
    decreases s.len(),
{
    if s.len() > 0 {
        if pat.is_prefix_of(s) {
            assert(s.subrange(0, pat.len() as int)[k] == s[k]);
        }
        assert(!s.skip(1).contains(pat[k])) by {
            if s.skip(1).contains(pat[k]) {
                let i = choose|i: int| 0 <= i < s.skip(1).len() && s.skip(1)[i] == pat[k];
                assert(s[i + 1] == pat[k]);
            }
        }
        lemma_replace_absent(s.skip(1), pat, rep, k);
        assert(seq![s[0]] + s.skip(1) =~= s);
    }
}

/// A text without `&` holds no entity: decoding leaves it as it is.
pub proof fn no_ampersand_no_entity(s: Seq<char>)
    requires
        !s.contains('&'),
    ensures
        entities_decoded(s) == s,
{
    reveal_strlit("&amp;");
    reveal_strlit("&quot;");
    reveal_strlit("&lt;");
    reveal_strlit("&gt;");
    reveal_strlit("&#39;");
    reveal_strlit("&apos;");
    lemma_replace_absent(s, "&amp;"@, "&"@, 0);
    lemma_replace_absent(s, "&quot;"@, "\""@, 0);
    lemma_replace_absent(s, "&lt;"@, "<"@, 0);
    lemma_replace_absent(s, "&gt;"@, ">"@, 0);
    lemma_replace_absent(s, "&#39;"@, "'"@, 0);
    lemma_replace_absent(s, "&apos;"@, "'"@, 0);
}

proof fn lemma_replace_not_longer(s: Seq<char>, pat: Seq<char>, rep: Seq<char>)
    requires
        rep.len() <= pat.len(),
    ensures
        text::replace_all(s, pat, rep).len() <= s.len(),
    decreases s.len(),
{
    if pat.len() > 0 && s.len() > 0 {
        if pat.is_prefix_of(s) {
            lemma_replace_not_longer(s.skip(pat.len() as int), pat, rep);
        } else {
            lemma_replace_not_longer(s.skip(1), pat, rep);
        }
    }
}

/// Decoding entities makes no text longer.
pub proof fn decoding_makes_nothing_longer(s: Seq<char>)
    ensures
        entities_decoded(s).len() <= s.len(),
{
    reveal_strlit("&amp;");
    reveal_strlit("&quot;");
    reveal_strlit("&lt;");
    reveal_strlit("&gt;");
    reveal_strlit("&#39;");
    reveal_strlit("&apos;");
    reveal_strlit("&");
    reveal_strlit("\"");
    reveal_strlit("<");
    reveal_strlit(">");
    reveal_strlit("'");
    let s1 = text::replace_all(s, "&amp;"@, "&"@);
    let s2 = text::replace_all(s1, "&quot;"@, "\""@);
    let s3 = text::replace_all(s2, "&lt;"@, "<"@);
    let s4 = text::replace_all(s3, "&gt;"@, ">"@);
    let s5 = text::replace_all(s4, "&#39;"@, "'"@);
    lemma_replace_not_longer(s, "&amp;"@, "&"@);
    lemma_replace_not_longer(s1, "&quot;"@, "\""@);
    lemma_replace_not_longer(s2, "&lt;"@, "<"@);
    lemma_replace_not_longer(s3, "&gt;"@, ">"@);
    lemma_replace_not_longer(s4, "&#39;"@, "'"@);
    lemma_replace_not_longer(s5, "&apos;"@, "'"@);
}

proof fn lemma_replace_keeps_prefix(p: Seq<char>, s: Seq<char>, pat: Seq<char>, rep: Seq<char>)
    requires
        p.is_prefix_of(s),
        pat.len() > 0,
        !p.contains(pat[0]),
    ensures
        p.is_prefix_of(text::replace_all(s, pat, rep)),
    decreases p.len(),
{
    let whole = text::replace_all(s, pat, rep);
    if p.len() > 0 {
        assert(s.subrange(0, p.len() as int)[0] == p[0]);
        assert(p.contains(p[0]));
        if pat.is_prefix_of(s) {
            assert(s.subrange(0, pat.len() as int)[0] == s[0]);
        }
        let tail = p.skip(1);
        assert(tail =~= s.skip(1).subrange(0, tail.len() as int)) by {
            assert forall|i: int| 0 <= i < tail.len() implies tail[i] == s[i + 1] by {
                assert(s.subrange(0, p.len() as int)[i + 1] == p[i + 1]);
            }
        }
        assert(!tail.contains(pat[0])) by {
            if tail.contains(pat[0]) {
                let i = choose|i: int| 0 <= i < tail.len() && tail[i] == pat[0];
                assert(p[i + 1] == pat[0]);
            }
        }
        lemma_replace_keeps_prefix(tail, s.skip(1), pat, rep);
        let rest = text::replace_all(s.skip(1), pat, rep);
        assert(whole == seq![s[0]] + rest);
        assert forall|i: int| 0 <= i < p.len() implies whole[i] == p[i] by {
            if i > 0 {
                assert(rest.subrange(0, tail.len() as int)[i - 1] == tail[i - 1]);
            }
        }
    }
    assert(p =~= whole.subrange(0, p.len() as int));
}

/// Decoding entities leaves a beginning without `&` as it is.
pub proof fn decoding_keeps_prefix(p: Seq<char>, s: Seq<char>)
    requires
        p.is_prefix_of(s),
        !p.contains('&'),
    ensures
        p.is_prefix_of(entities_decoded(s)),
{
    reveal_strlit("&amp;");
    reveal_strlit("&quot;");
    reveal_strlit("&lt;");
    reveal_strlit("&gt;");
    reveal_strlit("&#39;");
    reveal_strlit("&apos;");
    let s1 = text::replace_all(s, "&amp;"@, "&"@);
    let s2 = text::replace_all(s1, "&quot;"@, "\""@);
    let s3 = text::replace_all(s2, "&lt;"@, "<"@);
    let s4 = text::replace_all(s3, "&gt;"@, ">"@);
    let s5 = text::replace_all(s4, "&#39;"@, "'"@);
    lemma_replace_keeps_prefix(p, s, "&amp;"@, "&"@);
    lemma_replace_keeps_prefix(p, s1, "&quot;"@, "\""@);
    lemma_replace_keeps_prefix(p, s2, "&lt;"@, "<"@);
    lemma_replace_keeps_prefix(p, s3, "&gt;"@, ">"@);
    lemma_replace_keeps_prefix(p, s4, "&#39;"@, "'"@);
    lemma_replace_keeps_prefix(p, s5, "&apos;"@, "'"@);
}

/// Whether `c` occurs in `s`.
fn has_char(s: &str, c: char) -> (r: bool)
    ensures
        r == s@.contains(c),
{
    let chars = text::to_chars(s);
    let mut i: usize = 0;
    while i < chars.len()
        invariant
            i <= chars@.len(),
            chars@ == s@,
            forall|j: int| 0 <= j < i ==> s@[j] != c,
        decreases chars@.len() - i,
    {
        if chars[i] == c {
            assert(s@[i as int] == c);
            return true;
        }
        i = i + 1;
    }
    false
}

/// Decode common HTML entities that may appear in URLs extracted from HTML
/// attributes, e.g. `&quot;` to `"`, which URL parsing then percent-encodes as
/// `%22`.
pub fn decode_html_entities(s: &str) -> (r: String)
    ensures
        r@ == entities_decoded(s@),
{
    if !has_char(s, '&') {
        proof {
            no_ampersand_no_entity(s@);
        }
        return s.to_owned();
    }
    proof {
        reveal_strlit("&amp;");
        reveal_strlit("&quot;");
        reveal_strlit("&lt;");
        reveal_strlit("&gt;");
        reveal_strlit("&#39;");
        reveal_strlit("&apos;");
    }
    let s1 = text::replace(s, "&amp;", "&");
    let s2 = text::replace(s1.as_str(), "&quot;", "\"");
    let s3 = text::replace(s2.as_str(), "&lt;", "<");
    let s4 = text::replace(s3.as_str(), "&gt;", ">");
    let s5 = text::replace(s4.as_str(), "&#39;", "'");
    text::replace(s5.as_str(), "&apos;", "'")
}

} // verus!
