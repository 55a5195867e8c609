//! The calls that the library makes into other crates and into the parts of
//! std that vstd gives no specification. What each contract claims is
//! believed, not proved.
use vstd::prelude::*;
use vstd::utf8::{decode_utf8, encode_utf8, valid_utf8};

verus! {

/// The digit of the base64 alphabet (RFC 4648, section 4) for the six-bit
/// value `v`: `A`-`Z`, `a`-`z`, `0`-`9`, `+`, `/`.
pub open spec fn base64_digit(v: int) -> char {
    if v < 26 {
        ('A' as int + v) as char
    } else if v < 52 {
        ('a' as int + (v - 26)) as char
    } else if v < 62 {
        ('0' as int + (v - 52)) as char
    } else if v == 62 {
        '+'
    } else {
        '/'
    }
}

/// The standard base64 encoding of `b` with `=` padding (RFC 4648,
/// section 4): each group of three bytes becomes four digits, and a final
/// group of one or two bytes becomes two or three digits and padding.
pub open spec fn base64_standard_encoding(b: Seq<u8>) -> Seq<char>
    decreases b.len(),
{
    if b.len() == 0 {
        seq![]
    } else {
        let b0 = b[0] as int;
        let b1 = if b.len() > 1 { b[1] as int } else { 0 };
        let b2 = if b.len() > 2 { b[2] as int } else { 0 };
        let d0 = base64_digit(b0 / 4);
        let d1 = base64_digit((b0 % 4) * 16 + b1 / 16);
        let d2 = base64_digit((b1 % 16) * 4 + b2 / 64);
        let d3 = base64_digit(b2 % 64);
        if b.len() == 1 {
            seq![d0, d1, '=', '=']
        } else if b.len() == 2 {
            seq![d0, d1, d2, '=']
        } else {
            seq![d0, d1, d2, d3] + base64_standard_encoding(b.skip(3))
        }
    }
}

/// The bytes that the `base64` crate's `STANDARD` engine decodes `input` to,
/// or `None` when the engine rejects `input`.
pub uninterp spec fn base64_standard_decoding(input: Seq<u8>) -> Option<Seq<u8>>;

/// The value of an ASCII hexadecimal digit, either case.
pub open spec fn hex_value(b: u8) -> Option<int> {
    if 0x30 <= b <= 0x39 {
        Some(b - 0x30)
    } else if 0x41 <= b <= 0x46 {
        Some(b - 0x41 + 10)
    } else if 0x61 <= b <= 0x66 {
        Some(b - 0x61 + 10)
    } else {
        None
    }
}

/// `d` with every `%` that is followed by two hexadecimal digits replaced by
/// the byte they spell; every other byte, a lone `%` included, is kept.
pub open spec fn percent_decode_bytes(d: Seq<u8>) -> Seq<u8>
    decreases d.len(),
{
    if d.len() == 0 {
        seq![]
    } else if d[0] == 0x25 && d.len() >= 3 && hex_value(d[1]) is Some && hex_value(d[2]) is Some {
        seq![(hex_value(d[1]).unwrap() * 16 + hex_value(d[2]).unwrap()) as u8]
            + percent_decode_bytes(d.skip(3))
    } else {
        seq![d[0]] + percent_decode_bytes(d.skip(1))
    }
}

/// The text that `urlencoding::decode` gives for `s`: its UTF-8 bytes
/// percent-decoded, read back as UTF-8; `None` when they are not UTF-8.
pub open spec fn percent_decoding(s: Seq<char>) -> Option<Seq<char>> {
    let b = percent_decode_bytes(encode_utf8(s));
    if valid_utf8(b) {
        Some(decode_utf8(b))
    } else {
        None
    }
}

/// The length of the padded base64 encoding of `n` bytes: four characters
/// for every three bytes or part of three.
pub open spec fn base64_encoded_len(n: nat) -> int {
    (n / 3) * 4 + if n % 3 > 0 {
        4int
    } else {
        0int
    }
}

/// Calls `base64::Engine::encode` on `base64::engine::general_purpose::STANDARD`
/// (standard alphabet, padding on). Claimed: the result is
/// `base64_standard_encoding` of the input. The engine
/// panics when the encoded length does not fit in `usize`; `requires` leaves
/// those inputs out.
#[verifier::external_body]
pub(crate) fn base64_encode(bytes: &[u8]) -> (r: String)
    requires
        base64_encoded_len(bytes@.len()) <= usize::MAX,
    ensures
        r@ == base64_standard_encoding(bytes@),
{
    base64::Engine::encode(&base64::engine::general_purpose::STANDARD, bytes)
}

/// Calls `base64::Engine::decode` on `base64::engine::general_purpose::STANDARD`.
/// Claimed: `Some` of the decoded bytes when the engine accepts the input,
/// `None` when it returns an error, as `base64_standard_decoding` names it.
#[verifier::external_body]
pub(crate) fn base64_decode(input: &[u8]) -> (r: Option<Vec<u8>>)
    ensures
        match r {
            Some(v) => base64_standard_decoding(input@) == Some(v@),
            None => base64_standard_decoding(input@) is None,
        },
{
    match base64::Engine::decode(&base64::engine::general_purpose::STANDARD, input) {
        Ok(v) => Some(v),
        Err(_) => None,
    }
}

/// Calls `urlencoding::decode`. Claimed: `Some` of the decoded text when it
/// succeeds, `None` when it returns an error (the decoded bytes are not
/// UTF-8), as `percent_decoding` states.
#[verifier::external_body]
pub(crate) fn url_decode(s: &str) -> (r: Option<String>)
    ensures
        match r {
            Some(d) => percent_decoding(s@) == Some(d@),
            None => percent_decoding(s@) is None,
        },
{
    match urlencoding::decode(s) {
        Ok(d) => Some(d.into_owned()),
        Err(_) => None,
    }
}

/// Calls `String::from_utf8`, which std documents to fail exactly when the
/// bytes are not valid UTF-8. Claimed: `Some` exactly for valid UTF-8, whose
/// characters are then those that the bytes encode.
#[verifier::external_body]
pub(crate) fn utf8_to_string(bytes: Vec<u8>) -> (r: Option<String>)
    ensures
        r is Some <==> vstd::utf8::valid_utf8(bytes@),
        r matches Some(s) ==> s@ == vstd::utf8::decode_utf8(bytes@),
{
    match String::from_utf8(bytes) {
        Ok(s) => Some(s),
        Err(_) => None,
    }
}

} // verus!
