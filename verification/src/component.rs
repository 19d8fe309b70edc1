//! Query components: decoding a raw key or value, and writing it again with one
//! consistent percent-encoding.
use crate::text;
use vstd::prelude::*;
use vstd::utf8::*;

verus! {

// ---------------------------------------------------------------------------
// Bytes to text
// ---------------------------------------------------------------------------

/// How many bytes `String::from_utf8_lossy` replaces by one `U+FFFD` where `bytes` start
/// with an ill-formed sequence.
pub uninterp spec fn ill_formed_len(bytes: Seq<u8>) -> nat;

/// The length of the ill-formed sequence that `bytes` start with: one to three bytes, as
/// far as there are so many.
pub open spec fn ill_formed_prefix(bytes: Seq<u8>) -> int {
    if ill_formed_len(bytes) <= 1 || bytes.len() <= 1 {
        1
    } else if ill_formed_len(bytes) == 2 || bytes.len() == 2 {
        2
    } else {
        3
    }
}

/// The text of `bytes`: each well-formed UTF-8 sequence gives its character, and each
/// ill-formed one gives `U+FFFD`.
pub open spec fn lossy(bytes: Seq<u8>) -> Seq<char>
    decreases bytes.len(),
{
    if bytes.len() == 0 {
        Seq::<char>::empty()
    } else if valid_first_scalar(bytes) {
        seq![decode_first_scalar(bytes) as char] + lossy(pop_first_scalar(bytes))
    } else {
        seq!['\u{FFFD}'] + lossy(bytes.skip(ill_formed_prefix(bytes)))
    }
}

/// `String::from_utf8_lossy`: well-formed UTF-8 is decoded, and each ill-formed sequence
/// becomes one `U+FFFD`. Such a sequence is one to three bytes long, and decoding resumes
/// behind it. How long it is where more than one byte is left is not stated: that depends
/// on the bytes from its start on, and on nothing else.
#[verifier::external_body]
fn from_utf8_lossy(bytes: &[u8]) -> (r: String)
    ensures
        r@ == lossy(bytes@),
        bytes@.len() > 0 && !valid_first_scalar(bytes@) ==> r@ == seq!['\u{FFFD}'] + lossy(
            bytes@.skip(ill_formed_len(bytes@) as int),
        ),
{
    String::from_utf8_lossy(bytes).into_owned()
}

/// The text of well-formed UTF-8 is its decoding.
pub proof fn lemma_lossy_valid(bytes: Seq<u8>)
    requires
        valid_utf8(bytes),
    ensures
        lossy(bytes) == decode_utf8(bytes),
    decreases bytes.len(),
{
    if bytes.len() > 0 {
        lemma_lossy_valid(pop_first_scalar(bytes));
    }
}

// ---------------------------------------------------------------------------
// Decoding
// ---------------------------------------------------------------------------

/// The value of a hexadecimal digit, in either case.
pub open spec fn hex_digit(b: u8) -> Option<u8> {
    if '0' as u8 <= b <= '9' as u8 {
        Some((b - '0' as u8) as u8)
    } else if 'a' as u8 <= b <= 'f' as u8 {
        Some((b - 'a' as u8 + 10) as u8)
    } else if 'A' as u8 <= b <= 'F' as u8 {
        Some((b - 'A' as u8 + 10) as u8)
    } else {
        None
    }
}

/// Whether `b` starts with a percent sign and two hexadecimal digits.
pub open spec fn starts_escape(b: Seq<u8>) -> bool {
    &&& b.len() >= 3
    &&& b[0] == '%' as u8
    &&& hex_digit(b[1]) is Some
    &&& hex_digit(b[2]) is Some
}

/// The bytes that a raw component stands for: `+` is a space, `%XX` is the byte
/// `XX`, and every other byte stands for itself, a `%` without two digits included.
pub open spec fn percent_decoded(b: Seq<u8>) -> Seq<u8>
    decreases b.len(),
{
    if b.len() == 0 {
        Seq::<u8>::empty()
    } else if b[0] == '+' as u8 {
        seq![' ' as u8] + percent_decoded(b.skip(1))
    } else if starts_escape(b) {
        seq![(hex_digit(b[1])->0 * 16 + hex_digit(b[2])->0) as u8] + percent_decoded(b.skip(3))
    } else {
        seq![b[0]] + percent_decoded(b.skip(1))
    }
}

/// The text that a raw component stands for.
pub open spec fn decoded(s: Seq<char>) -> Seq<char> {
    lossy(percent_decoded(encode_utf8(s)))
}

/// The value of a hexadecimal digit.
pub fn hex_val(b: u8) -> (r: Option<u8>)
    ensures
        r == hex_digit(b),
{
    match b as char {
        '0'..='9' => Some(b - '0' as u8),
        'a'..='f' => Some(b - 'a' as u8 + 10),
        'A'..='F' => Some(b - 'A' as u8 + 10),
        _ => None,
    }
}

/// Decodes a query component (key or value) for normalization. Treats `+` as
/// space (form-urlencoded convention), decodes `%XX` sequences.
pub fn decode_query_component(s: &str) -> (r: String)
    ensures
        r@ == decoded(s@),
{
    let bytes = s.as_bytes();
    let len = bytes.len();
    let mut result: Vec<u8> = Vec::with_capacity(len);
    let mut i: usize = 0;
    assert(bytes@.skip(0) =~= bytes@);
    while i < len
        invariant
            i <= len,
            len == bytes@.len(),
            result@ + percent_decoded(bytes@.skip(i as int)) =~= percent_decoded(bytes@),
        decreases len - i,
    {
        let ghost rest = bytes@.skip(i as int);
        assert(rest.skip(1) =~= bytes@.skip(i + 1));
        if bytes[i] == '+' as u8 {
            result.push(' ' as u8);
            i = i + 1;
        } else if bytes[i] == '%' as u8 && len - i > 2 {
            let hi = hex_val(bytes[i + 1]);
            let lo = hex_val(bytes[i + 2]);
            match (hi, lo) {
                (Some(h), Some(l)) => {
                    assert(rest.skip(3) =~= bytes@.skip(i + 3));
                    result.push(h * 16 + l);
                    i = i + 3;
                },
                _ => {
                    result.push(bytes[i]);
                    i = i + 1;
                },
            }
        } else {
            result.push(bytes[i]);
            i = i + 1;
        }
    }
    assert(result@ =~= percent_decoded(bytes@));
    from_utf8_lossy(result.as_slice())
}

// ---------------------------------------------------------------------------
// Encoding
// ---------------------------------------------------------------------------

/// The bytes that are written as they are: the unreserved characters of RFC 3986
/// and the delimiters that are safe in a query.
pub open spec fn is_plain(b: u8) -> bool {
    ||| 'A' as u8 <= b <= 'Z' as u8
    ||| 'a' as u8 <= b <= 'z' as u8
    ||| '0' as u8 <= b <= '9' as u8
    ||| b == '-' as u8 || b == '.' as u8 || b == '_' as u8 || b == '~' as u8
    ||| b == '!' as u8 || b == '*' as u8 || b == '\'' as u8 || b == '(' as u8 || b == ')' as u8
    ||| b == ':' as u8 || b == '@' as u8 || b == '/' as u8 || b == ',' as u8 || b == ';' as u8
}

/// The uppercase hexadecimal digit of a value below sixteen.
pub open spec fn hex_upper(n: u8) -> u8 {
    if n < 10 {
        ('0' as u8 + n) as u8
    } else {
        ('A' as u8 + n - 10) as u8
    }
}

/// A percent sign and the two hexadecimal digits of `b`.
pub open spec fn escape(b: u8) -> Seq<u8> {
    seq!['%' as u8, hex_upper(b / 16), hex_upper(b % 16)]
}

/// How one byte is written.
pub open spec fn percent_byte(b: u8) -> Seq<u8> {
    if is_plain(b) {
        seq![b]
    } else {
        escape(b)
    }
}

/// How a sequence of bytes is written.
pub open spec fn percent_encoded(b: Seq<u8>) -> Seq<u8>
    decreases b.len(),
{
    if b.len() == 0 {
        Seq::<u8>::empty()
    } else {
        percent_byte(b[0]) + percent_encoded(b.skip(1))
    }
}

/// The text whose characters are the given ASCII bytes.
pub open spec fn ascii_text(b: Seq<u8>) -> Seq<char> {
    Seq::new(b.len(), |i: int| b[i] as char)
}

/// How a text is written as a query component.
pub open spec fn encoded(s: Seq<char>) -> Seq<char> {
    ascii_text(percent_encoded(encode_utf8(s)))
}

/// The hexadecimal digit of a value below sixteen, in uppercase.
fn hex_char(n: u8) -> (r: char)
    requires
        n < 16,
    ensures
        r == hex_upper(n) as char,
{
    if n < 10 {
        ('0' as u8 + n) as char
    } else {
        ('A' as u8 + (n - 10)) as char
    }
}

/// Writes a decoded query component with consistent percent-encoding. Spaces
/// become `%20`, only unsafe characters are encoded.
pub fn encode_query_component(s: &str) -> (r: String)
    ensures
        r@ == encoded(s@),
{
    let bytes = s.as_bytes();
    let len = bytes.len();
    let mut result: String = String::new();
    let mut i: usize = 0;
    assert(bytes@.skip(0) =~= bytes@);
    while i < len
        invariant
            i <= len,
            len == bytes@.len(),
            result@ + ascii_text(percent_encoded(bytes@.skip(i as int))) =~= ascii_text(
                percent_encoded(bytes@),
            ),
        decreases len - i,
    {
        let b = bytes[i];
        assert(bytes@.skip(i as int).skip(1) =~= bytes@.skip(i + 1));
        let ghost before = result@;
        match b as char {
            'A'..='Z' | 'a'..='z' | '0'..='9' | '-' | '.' | '_' | '~' | '!' | '*'
            | '\'' | '(' | ')' | ':' | '@' | '/' | ',' | ';' => {
                result.push(b as char);
            },
            _ => {
                result.push('%');
                result.push(hex_char(b / 16));
                result.push(hex_char(b % 16));
            },
        }
        assert(result@ =~= before + ascii_text(percent_byte(b)));
        i = i + 1;
    }
    assert(result@ =~= ascii_text(percent_encoded(bytes@)));
    result
}

// ---------------------------------------------------------------------------
// Decoding and encoding together
// ---------------------------------------------------------------------------

/// The characters that occur in an encoded component.
pub open spec fn component_char(c: char) -> bool {
    ||| c == '%'
    ||| c <= '\u{7f}' && is_plain(c as u8)
}

/// `s` with every apostrophe written as `%27`.
pub open spec fn quotes_escaped(s: Seq<char>) -> Seq<char> {
    text::replace_all(s, seq!['\''], seq!['%', '2', '7'])
}

/// How one byte is written, where an apostrophe may have to be escaped too.
spec fn written_byte(b: u8, quotes: bool) -> Seq<u8> {
    if quotes && b == '\'' as u8 {
        escape(b)
    } else {
        percent_byte(b)
    }
}

/// How bytes are written, where apostrophes may have to be escaped too.
spec fn written(b: Seq<u8>, quotes: bool) -> Seq<u8>
    decreases b.len(),
{
    if b.len() == 0 {
        Seq::<u8>::empty()
    } else {
        written_byte(b[0], quotes) + written(b.skip(1), quotes)
    }
}

proof fn lemma_written_plain(b: Seq<u8>)
    ensures
        written(b, false) == percent_encoded(b),
    decreases b.len(),
{
    if b.len() > 0 {
        lemma_written_plain(b.skip(1));
    }
}

proof fn lemma_written_chars(b: Seq<u8>, quotes: bool)
    ensures
        b.len() > 0 ==> written(b, quotes).len() > 0,
        forall|i: int|
            0 <= i < written(b, quotes).len() ==> {
                let c = #[trigger] written(b, quotes)[i];
                c < 128 && component_char(c as char) && (quotes ==> c != '\'' as u8)
            },
    decreases b.len(),
{
    if b.len() > 0 {
        let head = written_byte(b[0], quotes);
        let tail = written(b.skip(1), quotes);
        lemma_written_chars(b.skip(1), quotes);
        assert forall|i: int| 0 <= i < written(b, quotes).len() implies {
            let c = #[trigger] written(b, quotes)[i];
            c < 128 && component_char(c as char) && (quotes ==> c != '\'' as u8)
        } by {
            if i < head.len() {
                assert(written(b, quotes)[i] == head[i]);
            } else {
                assert(written(b, quotes)[i] == tail[i - head.len()]);
            }
        }
    }
}

proof fn lemma_decode_written(b: Seq<u8>, quotes: bool)
    ensures
        percent_decoded(written(b, quotes)) == b,
    decreases b.len(),
{
    if b.len() > 0 {
        let w = written(b, quotes);
        let head = written_byte(b[0], quotes);
        let tail = written(b.skip(1), quotes);
        lemma_decode_written(b.skip(1), quotes);
        assert(w.skip(head.len() as int) =~= tail);
        if head.len() == 3 {
            assert(w[0] == '%' as u8 && w[1] == hex_upper(b[0] / 16) && w[2] == hex_upper(
                b[0] % 16,
            ));
            assert(hex_digit(w[1]) == Some((b[0] / 16) as u8));
            assert(hex_digit(w[2]) == Some((b[0] % 16) as u8));
            assert((b[0] / 16) * 16 + b[0] % 16 == b[0]);
        }
        assert(seq![b[0]] + b.skip(1) =~= b);
    }
}

proof fn lemma_ascii_text_bytes(b: Seq<u8>)
    requires
        forall|i: int| 0 <= i < b.len() ==> #[trigger] b[i] < 128,
    ensures
        is_ascii_chars(ascii_text(b)),
        encode_utf8(ascii_text(b)) == b,
{
    is_ascii_chars_encode_utf8(ascii_text(b));
    assert(encode_utf8(ascii_text(b)) =~= b);
}

proof fn lemma_decode_text(s: Seq<char>, quotes: bool)
    ensures
        decoded(ascii_text(written(encode_utf8(s), quotes))) == s,
{
    let u = encode_utf8(s);
    lemma_written_chars(u, quotes);
    lemma_ascii_text_bytes(written(u, quotes));
    lemma_decode_written(u, quotes);
    encode_utf8_valid_utf8(s);
    encode_utf8_decode_utf8(s);
    lemma_lossy_valid(u);
}

/// Replacement of one character works piece by piece.
pub proof fn lemma_quotes_escaped_concat(a: Seq<char>, b: Seq<char>)
    ensures
        quotes_escaped(a + b) == quotes_escaped(a) + quotes_escaped(b),
    decreases a.len(),
{
    let pat = seq!['\''];
    if a.len() == 0 {
        assert(a + b =~= b);
        assert(quotes_escaped(a) + quotes_escaped(b) =~= quotes_escaped(b));
    } else {
        lemma_quotes_escaped_concat(a.skip(1), b);
        assert((a + b).skip(1) =~= a.skip(1) + b);
        assert(pat.is_prefix_of(a) <==> a[0] == '\'') by {
            assert(a.subrange(0, 1) =~= seq![a[0]]);
            assert(a.subrange(0, 1)[0] == a[0]);
        }
        assert(pat.is_prefix_of(a + b) <==> a[0] == '\'') by {
            assert((a + b).subrange(0, 1) =~= seq![a[0]]);
            assert((a + b).subrange(0, 1)[0] == a[0]);
        }
        assert(quotes_escaped(a + b) =~= quotes_escaped(a) + quotes_escaped(b));
    }
}

/// A text without an apostrophe stays as it is.
pub proof fn lemma_quotes_escaped_none(s: Seq<char>)
    requires
        !s.contains('\''),
    ensures
        quotes_escaped(s) == s,
    decreases s.len(),
{
    if s.len() > 0 {
        assert(s.subrange(0, 1)[0] == s[0]);
        assert(seq!['\''][0] == '\'');
        assert(!s.skip(1).contains('\'')) by {
            if s.skip(1).contains('\'') {
                let i = choose|i: int| 0 <= i < s.skip(1).len() && s.skip(1)[i] == '\'';
                assert(s[i + 1] == '\'');
            }
        }
        lemma_quotes_escaped_none(s.skip(1));
        assert(seq![s[0]] + s.skip(1) =~= s);
    }
}

proof fn lemma_written_quotes(b: Seq<u8>)
    ensures
        quotes_escaped(ascii_text(percent_encoded(b))) == ascii_text(written(b, true)),
    decreases b.len(),
{
    if b.len() > 0 {
        lemma_written_quotes(b.skip(1));
        let head = ascii_text(percent_byte(b[0]));
        let tail = ascii_text(percent_encoded(b.skip(1)));
        assert(ascii_text(percent_encoded(b)) =~= head + tail);
        lemma_quotes_escaped_concat(head, tail);
        if b[0] == '\'' as u8 {
            assert(head =~= seq!['\'']);
            assert(head.subrange(0, 1) =~= seq!['\'']);
            assert(head.skip(1) =~= Seq::<char>::empty());
            assert(quotes_escaped(head) =~= seq!['%', '2', '7']) by {
                reveal_with_fuel(text::replace_all, 2);
                assert(seq!['\''].is_prefix_of(head));
            }
            assert(ascii_text(escape(39)) =~= seq!['%', '2', '7']);
        } else {
            assert(!head.contains('\''));
            lemma_quotes_escaped_none(head);
        }
        assert(ascii_text(written(b, true)) =~= ascii_text(written_byte(b[0], true)) + ascii_text(
            written(b.skip(1), true),
        ));
    }
}

/// Decoding gives back what encoding wrote, also after the apostrophes were escaped.
pub proof fn decode_undoes_encode(s: Seq<char>)
    ensures
        decoded(encoded(s)) == s,
        decoded(quotes_escaped(encoded(s))) == s,
{
    lemma_decode_text(s, false);
    lemma_written_plain(encode_utf8(s));
    lemma_decode_text(s, true);
    lemma_written_quotes(encode_utf8(s));
}

/// An encoded component holds only plain characters and percent signs: never one
/// of the separators `&`, `=` and `+`. It is empty only where the text is.
pub proof fn encoded_is_plain(s: Seq<char>)
    ensures
        forall|i: int| 0 <= i < encoded(s).len() ==> component_char(#[trigger] encoded(s)[i]),
        forall|i: int|
            0 <= i < quotes_escaped(encoded(s)).len() ==> component_char(
                #[trigger] quotes_escaped(encoded(s))[i],
            ) && quotes_escaped(encoded(s))[i] != '\'',
        encoded(s).len() == 0 <==> s.len() == 0,
        quotes_escaped(encoded(s)).len() == 0 <==> s.len() == 0,
{
    let u = encode_utf8(s);
    lemma_written_chars(u, false);
    lemma_written_chars(u, true);
    lemma_written_plain(u);
    lemma_written_quotes(u);
    encode_utf8_decode_utf8(s);
    assert(s.len() > 0 ==> u.len() > 0) by {
        if s.len() > 0 && u.len() == 0 {
            assert(u =~= Seq::<u8>::empty());
            assert(decode_utf8(u).len() == 0);
        }
    }
}

/// A raw component that is not empty stands for a text that is not empty.
pub proof fn lemma_decoded_not_empty(s: Seq<char>)
    requires
        s.len() > 0,
    ensures
        decoded(s).len() > 0,
{
    encode_utf8_decode_utf8(s);
    let u = encode_utf8(s);
    if u.len() == 0 {
        assert(u =~= Seq::<u8>::empty());
        assert(decode_utf8(u).len() == 0);
    }
    assert(percent_decoded(u).len() > 0);
}

// ---------------------------------------------------------------------------
// What the operations are for
// ---------------------------------------------------------------------------

proof fn lemma_percent_encoded_concat(a: Seq<u8>, b: Seq<u8>)
    ensures
        percent_encoded(a + b) == percent_encoded(a) + percent_encoded(b),
    decreases a.len(),
{
    if a.len() == 0 {
        assert(a + b =~= b);
        assert(percent_encoded(a) + percent_encoded(b) =~= percent_encoded(b));
    } else {
        lemma_percent_encoded_concat(a.skip(1), b);
        assert((a + b).skip(1) =~= a.skip(1) + b);
        assert(percent_encoded(a + b) =~= percent_encoded(a) + percent_encoded(b));
    }
}

/// Texts are written character by character.
pub proof fn encoding_goes_by_character(c: char, s: Seq<char>)
    ensures
        encoded(Seq::<char>::empty()) == Seq::<char>::empty(),
        encoded(seq![c] + s) == encoded(seq![c]) + encoded(s),
{
    assert(encoded(Seq::<char>::empty()) =~= Seq::<char>::empty());
    let whole = seq![c] + s;
    assert(whole.drop_first() =~= s);
    assert(seq![c].drop_first() =~= Seq::<char>::empty());
    assert(encode_utf8(seq![c]) =~= encode_scalar(c as u32)) by {
        assert(encode_utf8(Seq::<char>::empty()) =~= Seq::<u8>::empty());
    }
    assert(encode_utf8(whole) =~= encode_utf8(seq![c]) + encode_utf8(s));
    lemma_percent_encoded_concat(encode_utf8(seq![c]), encode_utf8(s));
    assert(encoded(whole) =~= encoded(seq![c]) + encoded(s));
}

/// Whether `c` is a letter or digit of ASCII, or one of the marks that are safe in a query.
pub open spec fn is_safe_char(c: char) -> bool {
    ||| 'A' <= c <= 'Z' || 'a' <= c <= 'z' || '0' <= c <= '9'
    ||| "-._~!*'():@/,;"@.contains(c)
}

/// Whether `digit` is the uppercase hexadecimal digit of `n`.
pub open spec fn is_upper_digit_of(digit: char, n: int) -> bool {
    ||| '0' <= digit <= '9' && n == digit as int - 48
    ||| 'A' <= digit <= 'F' && n == digit as int - 55
}

proof fn lemma_safe_marks(c: char)
    ensures
        "-._~!*'():@/,;"@.contains(c) <==> c == '-' || c == '.' || c == '_' || c == '~' || c == '!'
            || c == '*' || c == '\'' || c == '(' || c == ')' || c == ':' || c == '@' || c == '/' || c
            == ',' || c == ';',
{
    reveal_strlit("-._~!*'():@/,;");
    let marks = "-._~!*'():@/,;"@;
    assert(marks[0] == '-' && marks[1] == '.' && marks[2] == '_' && marks[3] == '~' && marks[4]
        == '!' && marks[5] == '*' && marks[6] == '\'' && marks[7] == '(' && marks[8] == ')'
        && marks[9] == ':' && marks[10] == '@' && marks[11] == '/' && marks[12] == ',' && marks[13]
        == ';' && marks.len() == 14);
}

/// Whether the escape of `byte` stands at position `at` of `w`.
spec fn escape_stands_at(w: Seq<u8>, at: int, byte: u8) -> bool {
    w[at] == 37 && w[at + 1] == hex_upper(byte / 16) && w[at + 2] == hex_upper(byte % 16)
}

proof fn lemma_all_escaped(b: Seq<u8>)
    requires
        forall|i: int| 0 <= i < b.len() ==> !is_plain(#[trigger] b[i]),
    ensures
        percent_encoded(b).len() == 3 * b.len(),
        forall|i: int|
            0 <= i < b.len() ==> escape_stands_at(percent_encoded(b), 3 * i, #[trigger] b[i]),
    decreases b.len(),
{
    if b.len() > 0 {
        let rest = b.skip(1);
        lemma_all_escaped(rest);
        let (whole, tail) = (percent_encoded(b), percent_encoded(rest));
        assert(whole =~= escape(b[0]) + tail);
        assert forall|i: int| 0 <= i < b.len() implies escape_stands_at(
            whole,
            3 * i,
            #[trigger] b[i],
        ) by {
            if i > 0 {
                assert(rest[i - 1] == b[i]);
                assert(escape_stands_at(tail, 3 * (i - 1), rest[i - 1]));
                assert(whole[3 * i] == tail[3 * (i - 1)]);
                assert(whole[3 * i + 1] == tail[3 * (i - 1) + 1]);
                assert(whole[3 * i + 2] == tail[3 * (i - 1) + 2]);
            }
        }
    }
}

/// A safe character is written as it is. Of any other one, each byte is written as a percent
/// sign and two uppercase hexadecimal digits.
pub proof fn unsafe_characters_are_escaped(c: char)
    ensures
        is_safe_char(c) ==> encoded(seq![c]) == seq![c],
        !is_safe_char(c) ==> encoded(seq![c]).len() == 3 * encode_utf8(seq![c]).len(),
        !is_safe_char(c) ==> forall|i: int|
            0 <= i < encode_utf8(seq![c]).len() ==> {
                let byte = #[trigger] encode_utf8(seq![c])[i] as int;
                &&& encoded(seq![c])[3 * i] == '%'
                &&& is_upper_digit_of(encoded(seq![c])[3 * i + 1], byte / 16)
                &&& is_upper_digit_of(encoded(seq![c])[3 * i + 2], byte % 16)
            },
{
    lemma_safe_marks(c);
    let s = seq![c];
    let b = encode_utf8(s);
    if c <= '\u{7f}' {
        assert(is_ascii_chars(s));
        is_ascii_chars_encode_utf8(s);
        assert(b.len() == 1 && b[0] == c as u8);
    } else {
        assert(s.drop_first() =~= Seq::<char>::empty());
        assert(b =~= encode_scalar(c as u32)) by {
            assert(encode_utf8(Seq::<char>::empty()) =~= Seq::<u8>::empty());
        }
        lemma_wide_bytes(c);
    }
    if is_safe_char(c) {
        assert(b.skip(1) =~= Seq::<u8>::empty());
        assert(percent_encoded(b) =~= seq![c as u8]) by {
            reveal_with_fuel(percent_encoded, 2);
        }
        assert(encoded(s) =~= s);
    } else {
        assert forall|i: int| 0 <= i < b.len() implies !is_plain(#[trigger] b[i]) by {
        }
        lemma_all_escaped(b);
        assert forall|i: int| 0 <= i < b.len() implies {
            let byte = #[trigger] b[i] as int;
            &&& encoded(s)[3 * i] == '%'
            &&& is_upper_digit_of(encoded(s)[3 * i + 1], byte / 16)
            &&& is_upper_digit_of(encoded(s)[3 * i + 2], byte % 16)
        } by {
            assert(escape_stands_at(percent_encoded(b), 3 * i, b[i]));
        }
    }
}

/// Every byte of a character outside ASCII lies outside ASCII.
proof fn lemma_wide_bytes(c: char)
    requires
        c > '\u{7f}',
    ensures
        forall|i: int|
            0 <= i < encode_scalar(c as u32).len() ==> #[trigger] encode_scalar(c as u32)[i] >= 128,
{
    let v = c as u32;
    assert(v > 0x7f);
    assert(leading_byte_width_2(v) >= 128) by (bit_vector);
    assert(leading_byte_width_3(v) >= 128) by (bit_vector);
    assert(leading_byte_width_4(v) >= 128) by (bit_vector);
    assert(last_continuation_byte(v) >= 128) by (bit_vector);
    assert(second_last_continuation_byte(v) >= 128) by (bit_vector);
    assert(third_last_continuation_byte(v) >= 128) by (bit_vector);
}

/// In a raw component `+` stands for a space, a percent sign with two hexadecimal digits of
/// either case for the byte of that number, and any other byte for itself.
pub proof fn decoding_goes_byte_by_byte(b: Seq<u8>, x: u8, y: u8, high: int, low: int)
    requires
        (48 <= x <= 57 && high == x - 48) || (65 <= x <= 70 && high == x - 55) || (97 <= x <= 102
            && high == x - 87),
        (48 <= y <= 57 && low == y - 48) || (65 <= y <= 70 && low == y - 55) || (97 <= y <= 102
            && low == y - 87),
    ensures
        percent_decoded(Seq::<u8>::empty()) == Seq::<u8>::empty(),
        percent_decoded(seq![43u8] + b) == seq![32u8] + percent_decoded(b),
        percent_decoded(seq![37u8, x, y] + b) == seq![(16 * high + low) as u8] + percent_decoded(b),
{
    assert((seq![43u8] + b).skip(1) =~= b);
    assert((seq![37u8, x, y] + b).skip(3) =~= b);
    assert(hex_digit(x) == Some(high as u8));
    assert(hex_digit(y) == Some(low as u8));
}

/// Whether `b` is the number of a hexadecimal digit, in ASCII.
pub open spec fn is_digit_byte(b: u8) -> bool {
    48 <= b <= 57 || 65 <= b <= 70 || 97 <= b <= 102
}

/// In a raw component a byte stands for itself, unless it is a plus sign, or a percent sign
/// with two hexadecimal digits behind it.
pub proof fn other_bytes_stand_for_themselves(x: u8, b: Seq<u8>)
    requires
        x != 43,
        x == 37 ==> b.len() < 2 || !is_digit_byte(b[0]) || !is_digit_byte(b[1]),
    ensures
        percent_decoded(seq![x] + b) == seq![x] + percent_decoded(b),
{
    let whole = seq![x] + b;
    assert(whole.skip(1) =~= b);
    if b.len() >= 2 {
        assert(whole[1] == b[0] && whole[2] == b[1]);
    }
}

proof fn lemma_lossy_marks(bytes: Seq<u8>)
    requires
        !valid_utf8(bytes),
    ensures
        lossy(bytes).contains('\u{FFFD}'),
    decreases bytes.len(),
{
    if valid_first_scalar(bytes) {
        let rest = pop_first_scalar(bytes);
        lemma_lossy_marks(rest);
        let i = choose|i: int| 0 <= i < lossy(rest).len() && lossy(rest)[i] == '\u{FFFD}';
        assert(lossy(bytes)[i + 1] == '\u{FFFD}');
    } else {
        assert(lossy(bytes)[0] == '\u{FFFD}');
    }
}

/// A raw component stands for the text whose UTF-8 form its bytes are; where they are none,
/// the text is made of them with replacement characters.
pub proof fn decoding_reads_utf8(s: Seq<char>)
    ensures
        valid_utf8(percent_decoded(encode_utf8(s))) ==> encode_utf8(decoded(s)) == percent_decoded(
            encode_utf8(s),
        ),
        !valid_utf8(percent_decoded(encode_utf8(s))) ==> decoded(s).contains('\u{FFFD}'),
        decoded(s) == lossy(percent_decoded(encode_utf8(s))),
{
    let b = percent_decoded(encode_utf8(s));
    if valid_utf8(b) {
        lemma_lossy_valid(b);
        decode_utf8_encode_utf8(b);
    } else {
        lemma_lossy_marks(b);
    }
}

} // verus!
