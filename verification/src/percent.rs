//! Percent-encoding, as URLs want it.

use vstd::prelude::*;
use vstd::utf8::{encode_utf8, is_ascii_chars, is_ascii_chars_encode_utf8};
use crate::digest::hex_value;
use crate::text::ascii_text;

verus! {

/// The bytes that are written as they are: letters, digits, `-`, `.`, `_`
/// and `~`.
pub open spec fn is_unreserved(b: u8) -> bool {
    ||| 0x30 <= b <= 0x39
    ||| 0x41 <= b <= 0x5a
    ||| 0x61 <= b <= 0x7a
    ||| b == 0x2d
    ||| b == 0x2e
    ||| b == 0x5f
    ||| b == 0x7e
}

/// The upper-case hexadecimal digit for a value below sixteen.
pub open spec fn upper_hex_char(value: int) -> char {
    if value < 10 {
        (0x30 + value) as u8 as char
    } else {
        (0x37 + value) as u8 as char
    }
}

/// What one byte is written as.
pub open spec fn percent_encoded_byte(b: u8) -> Seq<char> {
    if is_unreserved(b) {
        seq![b as char]
    } else {
        seq!['%', upper_hex_char(b as int / 16), upper_hex_char(b as int % 16)]
    }
}

/// Every byte written as itself where it is unreserved, else as `%` and two
/// upper-case hexadecimal digits.
pub open spec fn percent_encoded(data: Seq<u8>) -> Seq<char>
    decreases data.len(),
{
    if data.len() == 0 {
        Seq::empty()
    } else {
        percent_encoded(data.drop_last()) + percent_encoded_byte(data.last())
    }
}

/// Calls `urlencoding::encode_binary`, which percent-encodes every byte
/// except ASCII letters and digits and `-`, `.`, `_`, `~`, with upper-case
/// hexadecimal digits.
#[verifier::external_body]
pub(crate) fn percent_encode(data: &[u8]) -> (text: String)
    ensures
        text@ == percent_encoded(data@),
{
    urlencoding::encode_binary(data).into_owned()
}

/// Percent-decoded bytes: a `%` with two hexadecimal digits of either case
/// behind it becomes the byte they denote; every other byte, a `%` without
/// two such digits too, stays as it is.
pub open spec fn percent_decoded(data: Seq<u8>) -> Seq<u8>
    decreases data.len(),
{
    if data.len() == 0 {
        Seq::empty()
    } else if data[0] == 0x25 && data.len() >= 3 && hex_value(data[1]) >= 0 && hex_value(data[2])
        >= 0 {
        seq![(hex_value(data[1]) * 16 + hex_value(data[2])) as u8] + percent_decoded(
            data.subrange(3, data.len() as int),
        )
    } else {
        seq![data[0]] + percent_decoded(data.subrange(1, data.len() as int))
    }
}

/// Calls `urlencoding::decode_binary`, which copies the input but for each
/// `%` that two hexadecimal digits follow: those three bytes become the one
/// byte that the digits denote.
#[verifier::external_body]
pub(crate) fn percent_decode(data: &[u8]) -> (bytes: Vec<u8>)
    ensures
        bytes@ == percent_decoded(data@),
{
    urlencoding::decode_binary(data).into_owned()
}

/// The bytes that a form leaves as they are: letters, digits, `*`, `-`, `.`
/// and `_`.
pub open spec fn is_form_safe(b: u8) -> bool {
    ||| 0x30 <= b <= 0x39
    ||| 0x41 <= b <= 0x5a
    ||| 0x61 <= b <= 0x7a
    ||| b == 0x2a
    ||| b == 0x2d
    ||| b == 0x2e
    ||| b == 0x5f
}

/// What one byte is written as in a form: itself where it is safe, `+` for
/// a space, else `%` and two upper-case hexadecimal digits.
pub open spec fn form_encoded_byte(b: u8) -> Seq<char> {
    if is_form_safe(b) {
        seq![b as char]
    } else if b == 0x20 {
        seq!['+']
    } else {
        seq!['%', upper_hex_char(b as int / 16), upper_hex_char(b as int % 16)]
    }
}

/// Bytes written as `application/x-www-form-urlencoded` asks, byte by byte.
pub open spec fn form_encoded(data: Seq<u8>) -> Seq<char>
    decreases data.len(),
{
    if data.len() == 0 {
        Seq::empty()
    } else {
        form_encoded(data.drop_last()) + form_encoded_byte(data.last())
    }
}

/// Text that a form leaves as it is: ASCII letters, digits, `*`, `-`, `.`
/// and `_` only.
pub open spec fn is_form_safe_text(text: Seq<char>) -> bool {
    forall|i: int|
        0 <= i < text.len() ==> '\0' <= (#[trigger] text[i]) <= '\u{7f}' && is_form_safe(
            text[i] as u8,
        )
}

/// Safe text is written as it stands.
pub proof fn lemma_form_safe_text(text: Seq<char>)
    requires
        is_form_safe_text(text),
    ensures
        form_encoded(encode_utf8(text)) == text,
{
    assert(is_ascii_chars(text)) by {
        assert forall|i: int| 0 <= i < text.len() implies '\0' <= #[trigger] text[i]
            <= '\u{7f}' by {}
    }
    is_ascii_chars_encode_utf8(text);
    let bytes = encode_utf8(text);
    assert forall|i: int| 0 <= i < bytes.len() implies is_form_safe(#[trigger] bytes[i]) by {
        assert(text[i] as u8 == bytes[i]);
    }
    lemma_form_safe_bytes(bytes);
    assert(ascii_text(bytes) =~= text) by {
        assert forall|i: int| 0 <= i < text.len() implies ascii_text(bytes)[i] == text[i] by {
            assert(text[i] as u8 == bytes[i]);
            assert('\0' <= text[i] <= '\u{7f}');
        }
    }
}

proof fn lemma_form_safe_bytes(bytes: Seq<u8>)
    requires
        forall|i: int| 0 <= i < bytes.len() ==> is_form_safe(#[trigger] bytes[i]),
    ensures
        form_encoded(bytes) == ascii_text(bytes),
    decreases bytes.len(),
{
    if bytes.len() > 0 {
        lemma_form_safe_bytes(bytes.drop_last());
        assert(is_form_safe(bytes[bytes.len() - 1]));
        assert(form_encoded(bytes) =~= ascii_text(bytes));
    } else {
        assert(form_encoded(bytes) =~= ascii_text(bytes));
    }
}

} // verus!
