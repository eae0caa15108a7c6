//! SHA-1 digests and their hexadecimal writing.

use vstd::prelude::*;
use vstd::utf8::{encode_utf8, is_ascii_chars, is_ascii_chars_encode_utf8};
use sha1::{Digest, Sha1};

verus! {

/// The SHA-1 digest of a byte sequence, as the `sha1` crate computes it.
pub uninterp spec fn sha1_digest(data: Seq<u8>) -> Seq<u8>;

/// Calls `sha1::Sha1::digest`. The contract names the result: it is the
/// digest of the bytes given, twenty bytes long. Nothing more is claimed of
/// the hash function itself.
#[verifier::external_body]
pub(crate) fn sha1(data: &[u8]) -> (digest: [u8; 20])
    ensures
        digest@ == sha1_digest(data@),
{
    Sha1::digest(data).into()
}

/// The lower-case hexadecimal digit for a value below sixteen.
pub open spec fn hex_char(value: int) -> char {
    if value < 10 {
        (0x30 + value) as u8 as char
    } else {
        (0x57 + value) as u8 as char
    }
}

/// Two lower-case hexadecimal digits for every byte, high half first.
pub open spec fn hex_text(data: Seq<u8>) -> Seq<char> {
    Seq::new(
        2 * data.len(),
        |i: int|
            if i % 2 == 0 {
                hex_char(data[i / 2] as int / 16)
            } else {
                hex_char(data[i / 2] as int % 16)
            },
    )
}

/// Calls `hex::encode`, which writes each byte as two digits taken from
/// `0123456789abcdef`, the high four bits first.
#[verifier::external_body]
pub(crate) fn hex_encode(data: &[u8]) -> (text: String)
    ensures
        text@ == hex_text(data@),
{
    hex::encode(data)
}

/// The value of a hexadecimal digit of either case, or `-1` for any other
/// byte.
pub open spec fn hex_value(c: u8) -> int {
    if 0x30 <= c <= 0x39 {
        c - 0x30
    } else if 0x61 <= c <= 0x66 {
        c - 0x61 + 10
    } else if 0x41 <= c <= 0x46 {
        c - 0x41 + 10
    } else {
        -1
    }
}

/// An even number of hexadecimal digits.
pub open spec fn is_hex(text: Seq<u8>) -> bool {
    &&& text.len() % 2 == 0
    &&& forall|i: int| 0 <= i < text.len() ==> hex_value(#[trigger] text[i]) >= 0
}

/// The bytes that hexadecimal text denotes.
pub open spec fn hex_bytes(text: Seq<u8>) -> Seq<u8> {
    Seq::new(
        text.len() / 2,
        |i: int| (hex_value(text[2 * i]) * 16 + hex_value(text[2 * i + 1])) as u8,
    )
}

/// The error of `hex::decode`, carried through and never looked into.
#[verifier::external_type_specification]
#[verifier::external_body]
pub struct ExFromHexError(hex::FromHexError);

/// Calls `hex::decode`, which fails on an odd length and on any byte that is
/// no hexadecimal digit, and otherwise joins each pair of digits, of either
/// case, into a byte.
#[verifier::external_body]
pub(crate) fn hex_decode(text: &[u8]) -> (res: Result<Vec<u8>, hex::FromHexError>)
    ensures
        res is Ok <==> is_hex(text@),
        res matches Ok(bytes) ==> bytes@ == hex_bytes(text@),
{
    hex::decode(text)
}

/// Whether `data` has the digest `expected`.
pub fn has_digest(data: &[u8], expected: &[u8; 20]) -> (yes: bool)
    ensures
        yes == (sha1_digest(data@) == expected@),
{
    let digest = sha1(data);
    crate::bytes::bytes_eq(digest.as_slice(), expected.as_slice())
}


/// Hexadecimal text that was written is read back: the digits that
/// `hex_text` writes for some bytes are hexadecimal text, and denote those
/// bytes. So an info hash that a magnet link spells in hexadecimal is the
/// info hash that was spelled.
pub proof fn lemma_hex_roundtrip(data: Seq<u8>)
    ensures
        is_hex(encode_utf8(hex_text(data))),
        encode_utf8(hex_text(data)).len() == 2 * data.len(),
        hex_bytes(encode_utf8(hex_text(data))) == data,
{
    let text = hex_text(data);
    assert(is_ascii_chars(text)) by {
        assert forall|i: int| 0 <= i < text.len() implies '\0' <= #[trigger] text[i]
            <= '\u{7f}' by {
            lemma_hex_char(data[i / 2] as int / 16);
            lemma_hex_char(data[i / 2] as int % 16);
        }
    }
    is_ascii_chars_encode_utf8(text);
    let bytes = encode_utf8(text);
    assert forall|i: int| 0 <= i < bytes.len() implies hex_value(#[trigger] bytes[i]) == (if i % 2
        == 0 {
        data[i / 2] as int / 16
    } else {
        data[i / 2] as int % 16
    }) by {
        lemma_hex_char(data[i / 2] as int / 16);
        lemma_hex_char(data[i / 2] as int % 16);
        assert(text[i] as u8 == bytes[i]);
    }
    assert(hex_bytes(bytes) =~= data) by {
        assert forall|k: int| 0 <= k < data.len() implies hex_bytes(bytes)[k] == data[k] by {
            assert(hex_value(bytes[2 * k]) == data[k] as int / 16);
            assert(hex_value(bytes[2 * k + 1]) == data[k] as int % 16);
        }
    }
}

/// A hexadecimal digit is an ASCII character, and has the value it was
/// written for.
proof fn lemma_hex_char(value: int)
    requires
        0 <= value < 16,
    ensures
        '\0' <= hex_char(value) <= '\u{7f}',
        hex_value(hex_char(value) as u8) == value,
{
}

} // verus!
