//! Hexadecimal text for binary payloads.

use crate::text::{chars_of, string_of};
use vstd::prelude::*;
use vstd::string::StringExecFns;

verus! {

/// The value of a hexadecimal digit, in either case.
pub open spec fn hex_value(c: char) -> Option<int> {
    if '0' <= c <= '9' {
        Some(c as int - '0' as int)
    } else if 'a' <= c <= 'f' {
        Some(c as int - 'a' as int + 10)
    } else if 'A' <= c <= 'F' {
        Some(c as int - 'A' as int + 10)
    } else {
        None
    }
}

/// Whether `s` is hexadecimal text for whole bytes: an even number of
/// hexadecimal digits and nothing else.
pub open spec fn is_hex(s: Seq<char>) -> bool {
    &&& s.len() % 2 == 0
    &&& forall|i: int| 0 <= i < s.len() ==> hex_value(#[trigger] s[i]) is Some
}

/// The bytes that hexadecimal text stands for, two digits to the byte.
pub open spec fn unhex(s: Seq<char>) -> Seq<u8> {
    Seq::new(
        s.len() / 2,
        |i: int| (hex_value(s[2 * i])->0 * 16 + hex_value(s[2 * i + 1])->0) as u8,
    )
}

/// The lower-case hexadecimal digit for `v`, meant for `0 <= v <= 15`.
pub open spec fn hex_digit(v: int) -> char {
    if v < 10 {
        ((v + 48) as u8) as char
    } else {
        ((v + 87) as u8) as char
    }
}

/// Bytes as lower-case hexadecimal text, two digits to the byte.
pub open spec fn hex(bytes: Seq<u8>) -> Seq<char> {
    Seq::new(
        2 * bytes.len(),
        |i: int|
            if i % 2 == 0 {
                hex_digit(bytes[i / 2] as int / 16)
            } else {
                hex_digit(bytes[i / 2] as int % 16)
            },
    )
}

/// Text with a leading `0x`, if there is one, taken off.
pub open spec fn without_prefix(s: Seq<char>) -> Seq<char> {
    if s.len() >= 2 && s[0] == '0' && s[1] == 'x' {
        s.skip(2)
    } else {
        s
    }
}

/// The bytes that a payload text carries: hexadecimal after an optional
/// `0x`, or nothing where the text is not of that form.
pub open spec fn payload_bytes(s: Seq<char>) -> Option<Seq<u8>> {
    if is_hex(without_prefix(s)) {
        Some(unhex(without_prefix(s)))
    } else {
        None
    }
}

/// The payload text for `bytes`: `0x`, then the bytes in hexadecimal.
pub open spec fn payload_text(bytes: Seq<u8>) -> Seq<char> {
    seq!['0', 'x'] + hex(bytes)
}

/// Decodes with `hex::decode`, which takes an even number of hexadecimal
/// digits of either case and gives one byte for every two of them, the first
/// digit of a pair being the high half.
#[verifier::external_body]
pub(crate) fn hex_decode(text: &str) -> (bytes: Option<Vec<u8>>)
    ensures
        bytes matches Some(b) ==> is_hex(text@) && b@ == unhex(text@),
        bytes is None ==> !is_hex(text@),
{
    hex::decode(text).ok()
}

/// Encodes with `hex::encode`, which writes every byte as two lower-case
/// hexadecimal digits, high half first.
#[verifier::external_body]
pub(crate) fn hex_encode(bytes: &[u8]) -> (text: String)
    ensures
        text@ == hex(bytes@),
{
    hex::encode(bytes)
}

/// Reads the bytes out of a payload text.
pub fn decode_payload(text: &str) -> (bytes: Option<Vec<u8>>)
    ensures
        bytes matches Some(b) ==> payload_bytes(text@) == Some(b@),
        bytes is None ==> payload_bytes(text@) is None,
{
    let chars = chars_of(text);
    if chars.len() >= 2 && chars[0] == '0' && chars[1] == 'x' {
        let body = string_of(vstd::slice::slice_subrange(chars.as_slice(), 2, chars.len()));
        proof {
            assert(chars@.subrange(2, chars@.len() as int) =~= chars@.skip(2));
        }
        hex_decode(body.as_str())
    } else {
        hex_decode(text)
    }
}

/// Writes bytes as a payload text.
pub fn encode_payload(bytes: &[u8]) -> (text: String)
    ensures
        text@ == payload_text(bytes@),
{
    let digits = hex_encode(bytes);
    let mut text = String::from_str("0x");
    proof {
        reveal_strlit("0x");
        assert("0x"@ =~= seq!['0', 'x']);
    }
    text.append(digits.as_str());
    text
}

proof fn lemma_hex_digit_value(v: int)
    requires
        0 <= v <= 15,
    ensures
        hex_value(hex_digit(v)) == Some(v),
        hex_digit(v) != 'x',
{
}

/// What `encode_payload` writes, `decode_payload` reads back as the same
/// bytes.
pub proof fn lemma_payload_round_trip(bytes: Seq<u8>)
    ensures
        payload_bytes(payload_text(bytes)) == Some(bytes),
{
    let text = payload_text(bytes);
    assert(without_prefix(text) =~= hex(bytes));
    let h = hex(bytes);
    assert forall|i: int| 0 <= i < h.len() implies hex_value(#[trigger] h[i]) is Some by {
        lemma_hex_digit_value(bytes[i / 2] as int / 16);
        lemma_hex_digit_value(bytes[i / 2] as int % 16);
    }
    assert(is_hex(h));
    assert forall|i: int| 0 <= i < bytes.len() implies unhex(h)[i] == bytes[i] by {
        lemma_hex_digit_value(bytes[i] as int / 16);
        lemma_hex_digit_value(bytes[i] as int % 16);
        assert(h[2 * i] == hex_digit(bytes[i] as int / 16));
        assert(h[2 * i + 1] == hex_digit(bytes[i] as int % 16));
    }
    assert(unhex(h) =~= bytes);
}

} // verus!
