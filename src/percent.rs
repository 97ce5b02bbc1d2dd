//! Percent-encoding of label values, as the exposition format needs them:
//! what the encoding yields, and that it can be undone.

use vstd::prelude::*;
use vstd::utf8::{decode_utf8, encode_utf8, encode_utf8_decode_utf8};

verus! {

/// Bytes that percent-encoding leaves as they are: ASCII letters and digits,
/// and `-`, `.`, `_`, `~`.
pub open spec fn is_unreserved(b: u8) -> bool {
    (48 <= b <= 57) || (65 <= b <= 90) || (97 <= b <= 122) || b == 45 || b == 46 || b == 95
        || b == 126
}

/// The upper-case hexadecimal digit of a value below 16.
pub open spec fn hex_digit(d: u8) -> char
    recommends
        d < 16,
{
    if d < 10 {
        ((48 + d) as u8) as char
    } else {
        ((55 + d) as u8) as char
    }
}

/// What one byte becomes: itself where it is unreserved, else `%` and its
/// two hexadecimal digits.
pub open spec fn byte_escape(b: u8) -> Seq<char> {
    if is_unreserved(b) {
        seq![b as char]
    } else {
        seq!['%', hex_digit(b / 16), hex_digit(b % 16)]
    }
}

/// The percent-encoding of a byte sequence.
pub open spec fn percent_encoded(bytes: Seq<u8>) -> Seq<char> {
    bytes.map_values(|b: u8| byte_escape(b)).flatten()
}

/// The percent-encoding of a text, taken over its UTF-8 bytes.
pub open spec fn url_encoded(s: Seq<char>) -> Seq<char> {
    percent_encoded(encode_utf8(s))
}

/// Relies on `urlencoding::encode`: every byte of the text's UTF-8 form but
/// ASCII alphanumerics and `-`, `.`, `_`, `~` is written as `%` followed by
/// two upper-case hexadecimal digits; those four and the alphanumerics stay.
#[verifier::external_body]
pub(crate) fn url_encode(s: &str) -> (r: String)
    ensures
        r@ == url_encoded(s@),
{
    urlencoding::encode(s).into_owned()
}

/// The value of a hexadecimal digit (either case); zero for any other
/// character.
pub open spec fn hex_value(c: char) -> int {
    if '0' <= c <= '9' {
        c as int - 48
    } else if 'A' <= c <= 'F' {
        c as int - 55
    } else if 'a' <= c <= 'f' {
        c as int - 87
    } else {
        0
    }
}

/// The bytes that a percent-encoded text stands for: each `%` with the two
/// digits after it gives one byte, and any other character gives its own
/// code (meant for ASCII text).
pub open spec fn percent_decoded(t: Seq<char>) -> Seq<u8>
    decreases t.len(),
{
    if t.len() == 0 {
        Seq::<u8>::empty()
    } else if t[0] == '%' && t.len() >= 3 {
        seq![(hex_value(t[1]) * 16 + hex_value(t[2])) as u8] + percent_decoded(t.skip(3))
    } else {
        seq![(t[0] as u32) as u8] + percent_decoded(t.skip(1))
    }
}

/// The text that a percent-encoded text stands for.
pub open spec fn url_decoded(t: Seq<char>) -> Seq<char> {
    decode_utf8(percent_decoded(t))
}

/// Characters that can stand in an encoded label value: ASCII letters and
/// digits, `-`, `.`, `_`, `~` and `%`. Quotes, `=`, `/`, `?`, `,`, braces,
/// blanks and line breaks are not among them.
pub open spec fn is_encoded_char(c: char) -> bool {
    ('0' <= c <= '9') || ('A' <= c <= 'Z') || ('a' <= c <= 'z') || c == '-' || c == '.' || c
        == '_' || c == '~' || c == '%'
}

proof fn lemma_percent_encoded_first(bytes: Seq<u8>)
    requires
        bytes.len() > 0,
    ensures
        percent_encoded(bytes) == byte_escape(bytes[0]) + percent_encoded(bytes.drop_first()),
{
    let f = |b: u8| byte_escape(b);
    assert(bytes.map_values(f).drop_first() =~= bytes.drop_first().map_values(f));
}

proof fn lemma_byte_escape_decodes(b: u8, rest: Seq<char>)
    ensures
        percent_decoded(byte_escape(b) + rest) == seq![b] + percent_decoded(rest),
{
    let t = byte_escape(b) + rest;
    if is_unreserved(b) {
        assert(t[0] == b as char);
        assert(t.skip(1) =~= rest);
    } else {
        assert(t.skip(3) =~= rest);
        let hi = b / 16;
        let lo = b % 16;
        assert(hex_value(hex_digit(hi)) == hi as int);
        assert(hex_value(hex_digit(lo)) == lo as int);
    }
}

proof fn lemma_percent_round_trip(bytes: Seq<u8>)
    ensures
        percent_decoded(percent_encoded(bytes)) == bytes,
    decreases bytes.len(),
{
    if bytes.len() == 0 {
        assert(percent_encoded(bytes) =~= Seq::<char>::empty());
    } else {
        lemma_percent_encoded_first(bytes);
        lemma_byte_escape_decodes(bytes[0], percent_encoded(bytes.drop_first()));
        lemma_percent_round_trip(bytes.drop_first());
        assert(seq![bytes[0]] + bytes.drop_first() =~= bytes);
    }
}

proof fn lemma_percent_encoded_chars(bytes: Seq<u8>)
    ensures
        forall|i: int|
            0 <= i < percent_encoded(bytes).len() ==> is_encoded_char(
                #[trigger] percent_encoded(bytes)[i],
            ),
    decreases bytes.len(),
{
    if bytes.len() == 0 {
        assert(percent_encoded(bytes) =~= Seq::<char>::empty());
    } else {
        lemma_percent_encoded_first(bytes);
        lemma_percent_encoded_chars(bytes.drop_first());
        let e = byte_escape(bytes[0]);
        let b = bytes[0];
        assert(b / 16 < 16 && b % 16 < 16);
        assert forall|i: int| 0 <= i < e.len() implies is_encoded_char(#[trigger] e[i]) by {}
        let rest = percent_encoded(bytes.drop_first());
        assert forall|i: int| 0 <= i < (e + rest).len() implies is_encoded_char(
            #[trigger] (e + rest)[i],
        ) by {
            if i >= e.len() {
                assert((e + rest)[i] == rest[i - e.len()]);
            }
        }
    }
}

/// An encoded label value holds none of the characters that the exposition
/// format reserves (only letters, digits, `-`, `.`, `_`, `~` and `%`), and
/// decoding it gives back the original text.
pub proof fn lemma_url_encoding_is_reversible(s: Seq<char>)
    ensures
        forall|i: int|
            0 <= i < url_encoded(s).len() ==> is_encoded_char(#[trigger] url_encoded(s)[i]),
        url_decoded(url_encoded(s)) == s,
{
    lemma_percent_encoded_chars(encode_utf8(s));
    lemma_percent_round_trip(encode_utf8(s));
    encode_utf8_decode_utf8(s);
}

} // verus!
