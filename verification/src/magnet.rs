//! Magnet links: `magnet:?xt=urn:btih:<info hash>&tr=<tracker>&dn=<name>`.

use vstd::prelude::*;
use vstd::utf8::{decode_utf8, encode_utf8, valid_utf8};
use crate::bytes::{array_from, bytes_eq, copy_range};
use crate::digest::{hex_bytes, hex_decode, hex_text, is_hex, lemma_hex_roundtrip};
use crate::errors::TorrentError;
use crate::percent::{percent_decode, percent_decoded};
use crate::text::{ascii_string, lemma_ascii_is_utf8, string_from_utf8};

verus! {

/// The text `magnet:?`.
pub open spec fn scheme() -> Seq<u8> {
    seq![0x6du8, 0x61, 0x67, 0x6e, 0x65, 0x74, 0x3a, 0x3f]
}

/// The text `urn:btih:`.
pub open spec fn btih() -> Seq<u8> {
    seq![0x75u8, 0x72, 0x6e, 0x3a, 0x62, 0x74, 0x69, 0x68, 0x3a]
}

/// The key `xt`.
pub open spec fn key_xt() -> Seq<u8> {
    seq![0x78u8, 0x74]
}

/// The key `tr`.
pub open spec fn key_tr() -> Seq<u8> {
    seq![0x74u8, 0x72]
}

/// The key `dn`.
pub open spec fn key_dn() -> Seq<u8> {
    seq![0x64u8, 0x6e]
}

/// What a magnet link says, as far as it has been read.
pub struct MagnetFields {
    pub info_hash: Option<Seq<u8>>,
    pub tracker_url: Option<Seq<char>>,
    pub display_name: Option<Seq<char>>,
}

/// The first offset from `from` on, before `to`, at which `byte` stands; `to`
/// where it stands nowhere.
pub open spec fn find(s: Seq<u8>, from: int, to: int, byte: u8) -> int
    decreases to - from,
{
    if from >= to {
        to
    } else if 0 <= from < s.len() && s[from] == byte {
        from
    } else {
        find(s, from + 1, to, byte)
    }
}

/// `s` begins with `prefix`.
pub open spec fn begins_with(s: Seq<u8>, prefix: Seq<u8>) -> bool {
    s.len() >= prefix.len() && s.subrange(0, prefix.len() as int) == prefix
}

/// The text that bytes encode, where they are UTF-8.
pub open spec fn text_of(bytes: Seq<u8>) -> Option<Seq<char>> {
    if valid_utf8(bytes) {
        Some(decode_utf8(bytes))
    } else {
        None
    }
}

/// What one `key=value` parameter adds. A later parameter replaces what an
/// earlier one of the same key gave; unknown keys change nothing.
///
/// - `xt` with a value `urn:btih:<hash>` gives the info hash;
/// - `tr` gives the tracker, percent-decoded, unless what comes out is not
///   UTF-8;
/// - `dn` gives the display name, percent-decoded, or as it stands where
///   what comes out is not UTF-8.
pub open spec fn with_param(fields: MagnetFields, key: Seq<u8>, value: Seq<u8>) -> MagnetFields {
    if key == key_xt() {
        if begins_with(value, btih()) {
            MagnetFields { info_hash: Some(value.subrange(9, value.len() as int)), ..fields }
        } else {
            fields
        }
    } else if key == key_tr() {
        match text_of(percent_decoded(value)) {
            Some(text) => MagnetFields { tracker_url: Some(text), ..fields },
            None => fields,
        }
    } else if key == key_dn() {
        match text_of(percent_decoded(value)) {
            Some(text) => MagnetFields { display_name: Some(text), ..fields },
            None => match text_of(value) {
                Some(text) => MagnetFields { display_name: Some(text), ..fields },
                None => fields,
            },
        }
    } else {
        fields
    }
}

/// What the parameters from `pos` on add to `fields`. Parameters are
/// separated by `&`; one without `=` is passed over.
pub open spec fn with_params(s: Seq<u8>, pos: int, fields: MagnetFields) -> MagnetFields
    decreases s.len() - pos,
{
    if pos >= s.len() || pos < 0 {
        fields
    } else {
        let end = find(s, pos, s.len() as int, 0x26);
        let eq = find(s, pos, end, 0x3d);
        let next = if eq < end {
            with_param(fields, s.subrange(pos, eq), s.subrange(eq + 1, end))
        } else {
            fields
        };
        if end < pos {
            fields
        } else if end >= s.len() {
            next
        } else {
            with_params(s, end + 1, next)
        }
    }
}

/// An info hash written as forty hexadecimal digits.
pub open spec fn is_hash_text(text: Seq<u8>) -> bool {
    text.len() == 40 && is_hex(text)
}

/// What a magnet link says, if it is one: it begins with `magnet:?` and
/// gives an info hash of forty hexadecimal digits.
pub open spec fn magnet_fields(s: Seq<u8>) -> Option<MagnetFields> {
    if !begins_with(s, scheme()) {
        None
    } else {
        let fields = with_params(
            s,
            8,
            MagnetFields { info_hash: None, tracker_url: None, display_name: None },
        );
        match fields.info_hash {
            Some(hash) => if is_hash_text(hash) {
                Some(fields)
            } else {
                None
            },
            None => None,
        }
    }
}

/// The text of an optional string.
pub open spec fn optional_text(text: Option<String>) -> Option<Seq<char>> {
    match text {
        Some(t) => Some(t@),
        None => None,
    }
}

/// A magnet link: the info hash as forty hexadecimal digits, and the tracker
/// and the display name where the link gives them.
#[derive(Debug, Clone)]
pub struct MagnetLink {
    pub info_hash: String,
    pub tracker_url: Option<String>,
    pub display_name: Option<String>,
}

/// `find` stays between its bounds and finds the first such byte.
pub proof fn lemma_find(s: Seq<u8>, from: int, to: int, byte: u8)
    requires
        0 <= from <= to <= s.len(),
    ensures
        from <= find(s, from, to, byte) <= to,
        find(s, from, to, byte) < to ==> s[find(s, from, to, byte)] == byte,
    decreases to - from,
{
    if from < to && s[from] != byte {
        lemma_find(s, from + 1, to, byte);
    }
}

fn find_byte(s: &[u8], from: usize, to: usize, byte: u8) -> (at: usize)
    requires
        from <= to <= s.len(),
    ensures
        at == find(s@, from as int, to as int, byte),
        from <= at <= to,
        at < to ==> s@[at as int] == byte,
{
    let mut i = from;
    while i < to && s[i] != byte
        invariant
            from <= i <= to <= s.len(),
            find(s@, from as int, to as int, byte) == find(s@, i as int, to as int, byte),
        decreases to - i,
    {
        i += 1;
    }
    i
}

fn has_prefix(s: &[u8], prefix: &[u8]) -> (yes: bool)
    ensures
        yes == begins_with(s@, prefix@),
{
    if s.len() < prefix.len() {
        return false;
    }
    bytes_eq(vstd::slice::slice_subrange(s, 0, prefix.len()), prefix)
}

fn text_from(bytes: Vec<u8>) -> (res: Option<String>)
    ensures
        optional_text(res) == text_of(bytes@),
{
    match string_from_utf8(bytes) {
        Ok(text) => Some(text),
        Err(_) => None,
    }
}

impl MagnetLink {
    /// Reads a magnet link.
    pub fn from(magnet_link: &str) -> (res: Result<MagnetLink, TorrentError>)
        ensures
            match magnet_fields(encode_utf8(magnet_link@)) {
                Some(fields) => res matches Ok(link) && Some(encode_utf8(link.info_hash@))
                    == fields.info_hash && optional_text(link.tracker_url) == fields.tracker_url
                    && optional_text(link.display_name) == fields.display_name,
                None => res == Err::<MagnetLink, TorrentError>(TorrentError::MagnetMalformed),
            },
    {
        let s = magnet_link.as_bytes();
        let scheme_text: [u8; 8] = [0x6d, 0x61, 0x67, 0x6e, 0x65, 0x74, 0x3a, 0x3f];
        assert(scheme_text@ =~= scheme());
        if !has_prefix(s, scheme_text.as_slice()) {
            return Err(TorrentError::MagnetMalformed);
        }
        let btih_text: [u8; 9] = [0x75, 0x72, 0x6e, 0x3a, 0x62, 0x74, 0x69, 0x68, 0x3a];
        assert(btih_text@ =~= btih());
        let xt: [u8; 2] = [0x78, 0x74];
        assert(xt@ =~= key_xt());
        let tr: [u8; 2] = [0x74, 0x72];
        assert(tr@ =~= key_tr());
        let dn: [u8; 2] = [0x64, 0x6e];
        assert(dn@ =~= key_dn());

        let mut info_hash: Option<Vec<u8>> = None;
        let mut tracker_url: Option<String> = None;
        let mut display_name: Option<String> = None;
        let ghost start = MagnetFields { info_hash: None, tracker_url: None, display_name: None };
        let ghost mut fields = start;
        let mut pos: usize = 8;
        while pos < s.len()
            invariant
                8 <= pos,
                btih_text@ == btih(),
                xt@ == key_xt(),
                tr@ == key_tr(),
                dn@ == key_dn(),
                with_params(s@, 8, start) == with_params(s@, pos as int, fields),
                match info_hash {
                    Some(hash) => fields.info_hash == Some(hash@),
                    None => fields.info_hash is None,
                },
                optional_text(tracker_url) == fields.tracker_url,
                optional_text(display_name) == fields.display_name,
            decreases s.len() - pos,
        {
            let end = find_byte(s, pos, s.len(), 0x26);
            let eq = find_byte(s, pos, end, 0x3d);
            let ghost before = fields;
            if eq < end {
                let key = vstd::slice::slice_subrange(s, pos, eq);
                let value = vstd::slice::slice_subrange(s, eq + 1, end);
                assert(value@.subrange(0, value@.len() as int) =~= value@);
                if bytes_eq(key, xt.as_slice()) {
                    if has_prefix(value, btih_text.as_slice()) {
                        info_hash = Some(copy_range(value, 9, value.len()));
                        proof {
                            fields = MagnetFields {
                                info_hash: Some(value@.subrange(9, value@.len() as int)),
                                ..fields
                            };
                        }
                    }
                } else if bytes_eq(key, tr.as_slice()) {
                    match text_from(percent_decode(value)) {
                        Some(text) => {
                            proof {
                                fields = MagnetFields { tracker_url: Some(text@), ..fields };
                            }
                            tracker_url = Some(text);
                        },
                        None => {},
                    }
                } else if bytes_eq(key, dn.as_slice()) {
                    match text_from(percent_decode(value)) {
                        Some(text) => {
                            proof {
                                fields = MagnetFields { display_name: Some(text@), ..fields };
                            }
                            display_name = Some(text);
                        },
                        None => match text_from(copy_range(value, 0, value.len())) {
                            Some(text) => {
                                proof {
                                    fields = MagnetFields { display_name: Some(text@), ..fields };
                                }
                                display_name = Some(text);
                            },
                            None => {},
                        },
                    }
                }
            }
            assert(eq < end ==> fields == with_param(
                before,
                s@.subrange(pos as int, eq as int),
                s@.subrange(eq + 1, end as int),
            ));
            assert(eq >= end ==> fields == before);
            if end == s.len() {
                pos = end;
            } else {
                pos = end + 1;
            }
        }
        let hash = match info_hash {
            None => {
                return Err(TorrentError::MagnetMalformed);
            },
            Some(hash) => hash,
        };
        if hash.len() != 40 {
            return Err(TorrentError::MagnetMalformed);
        }
        if hex_decode(hash.as_slice()).is_err() {
            return Err(TorrentError::MagnetMalformed);
        }
        proof {
            assert forall|i: int| 0 <= i < hash@.len() implies #[trigger] hash@[i] < 128 by {
                assert(crate::digest::hex_value(hash@[i]) >= 0);
            }
            lemma_ascii_is_utf8(hash@);
        }
        Ok(MagnetLink { info_hash: ascii_string(hash), tracker_url, display_name })
    }

    /// The info hash as bytes.
    pub fn get_info_hash(&self) -> (res: Result<[u8; 20], TorrentError>)
        ensures
            match res {
                Ok(hash) => encode_utf8(self.info_hash@).len() == 40 && is_hex(
                    encode_utf8(self.info_hash@),
                ) && hash@ == hex_bytes(encode_utf8(self.info_hash@)),
                Err(e) => e == TorrentError::MagnetMalformed && !(encode_utf8(
                    self.info_hash@,
                ).len() == 40 && is_hex(encode_utf8(self.info_hash@))),
            },
    {
        let text = self.info_hash.as_str().as_bytes();
        if text.len() != 40 {
            return Err(TorrentError::MagnetMalformed);
        }
        match hex_decode(text) {
            Err(_) => Err(TorrentError::MagnetMalformed),
            Ok(bytes) => {
                let hash = array_from::<20>(bytes.as_slice(), 0);
                assert(hash@ =~= bytes@);
                Ok(hash)
            },
        }
    }
}


/// A magnet link that spells an info hash in hexadecimal names that info
/// hash: where the text of the link's info hash is the hexadecimal writing
/// of twenty bytes, as it is for the info hash of a torrent, those bytes are
/// what `get_info_hash` gives.
pub proof fn lemma_magnet_names_info_hash(link: MagnetLink, info_hash: Seq<u8>)
    requires
        info_hash.len() == 20,
        link.info_hash@ == hex_text(info_hash),
    ensures
        is_hash_text(encode_utf8(link.info_hash@)),
        hex_bytes(encode_utf8(link.info_hash@)) == info_hash,
{
    lemma_hex_roundtrip(info_hash);
}

} // verus!
