//! Metainfo: the tracker URL and the description of the one file, its piece
//! table and its info hash.

use vstd::prelude::*;
use vstd::utf8::{encode_utf8, valid_utf8};
use crate::bencode::encode::encode_bencoded_value;
use crate::bencode::grammar::{
    encode_value, field, keys_sorted, lex_le, lookup, parse_value, BEntry, BValue, Parse,
};
use crate::bencode::laws::lemma_decode_encode_roundtrip;
use crate::bencode::readback::{lemma_encode_decode_roundtrip, storable};
use crate::bencode::{as_error, decode_bencoded_value, entries_view, BencodeValue, DictEntry};
use crate::bytes::{array_from, copy_range};
use crate::digest::{hex_encode, hex_text, sha1, sha1_digest};
use crate::errors::TorrentError;
use crate::text::string_from_utf8;

verus! {

/// The length of a SHA-1 digest.
pub const HASH_LEN: usize = 20;

/// The key `announce`.
pub open spec fn key_announce() -> Seq<u8> {
    seq![0x61u8, 0x6e, 0x6e, 0x6f, 0x75, 0x6e, 0x63, 0x65]
}

/// The key `info`.
pub open spec fn key_info() -> Seq<u8> {
    seq![0x69u8, 0x6e, 0x66, 0x6f]
}

/// The key `length`.
pub open spec fn key_length() -> Seq<u8> {
    seq![0x6cu8, 0x65, 0x6e, 0x67, 0x74, 0x68]
}

/// The key `name`.
pub open spec fn key_name() -> Seq<u8> {
    seq![0x6eu8, 0x61, 0x6d, 0x65]
}

/// The key `piece length`.
pub open spec fn key_piece_length() -> Seq<u8> {
    seq![0x70u8, 0x69, 0x65, 0x63, 0x65, 0x20, 0x6c, 0x65, 0x6e, 0x67, 0x74, 0x68]
}

/// The key `pieces`.
pub open spec fn key_pieces() -> Seq<u8> {
    seq![0x70u8, 0x69, 0x65, 0x63, 0x65, 0x73]
}

/// `count` pieces of `piece_length` bytes, the last one possibly shorter but
/// not empty, make up exactly `length` bytes.
pub open spec fn pieces_cover(length: int, piece_length: int, count: int) -> bool {
    &&& piece_length > 0
    &&& count >= 0
    &&& if count == 0 {
        length == 0
    } else {
        (count - 1) * piece_length < length <= count * piece_length
    }
}

/// The description of the file: its name, its length, the length of a piece
/// and the SHA-1 digests of the pieces, one after the other.
#[derive(Debug, Clone)]
pub struct Info {
    pub name: String,
    pub length: u32,
    pub piece_length: u32,
    pub pieces: Vec<u8>,
}

/// A torrent: where its tracker is, and what it holds.
#[derive(Debug, Clone)]
pub struct Torrent {
    pub announce: String,
    pub info: Info,
}

impl Info {
    /// The number of pieces.
    pub open spec fn piece_count(&self) -> int {
        self.pieces@.len() as int / 20
    }

    /// The digests are whole, and the pieces cover the file exactly.
    pub open spec fn well_formed(&self) -> bool {
        &&& self.pieces@.len() % 20 == 0
        &&& pieces_cover(self.length as int, self.piece_length as int, self.piece_count())
    }

    /// The length of piece `i`: every piece has the general length but the
    /// last, which holds what is left.
    pub open spec fn piece_length_at(&self, i: int) -> int {
        if i == self.piece_count() - 1 {
            self.length - (self.piece_count() - 1) * self.piece_length
        } else {
            self.piece_length as int
        }
    }

    /// The digest of piece `i`.
    pub open spec fn piece_hash_at(&self, i: int) -> Seq<u8> {
        self.pieces@.subrange(20 * i, 20 * i + 20)
    }

    /// The lengths of the first `n` pieces, added up.
    pub open spec fn total_length(&self, n: nat) -> int
        decreases n,
    {
        if n == 0 {
            0
        } else {
            self.total_length((n - 1) as nat) + self.piece_length_at(n - 1)
        }
    }

    /// The `info` dictionary, keys in lexicographic order.
    pub open spec fn dictionary(&self) -> BValue {
        BValue::Dict(
            seq![
                BEntry { key: key_length(), value: BValue::Int(self.length as int) },
                BEntry { key: key_name(), value: BValue::Bytes(encode_utf8(self.name@)) },
                BEntry { key: key_piece_length(), value: BValue::Int(self.piece_length as int) },
                BEntry { key: key_pieces(), value: BValue::Bytes(self.pieces@) },
            ],
        )
    }

    /// The bencoded `info` dictionary, over which the info hash is taken.
    pub open spec fn encoding(&self) -> Seq<u8> {
        encode_value(self.dictionary())
    }
}

/// `v` is an `info` dictionary: it holds a UTF-8 `name`, a `length` and a
/// positive `piece length` that fit in 32 bits, and `pieces` that are whole
/// digests and cover the file.
pub open spec fn describes_info(v: BValue) -> bool {
    &&& field(v, key_name()) matches Some(BValue::Bytes(name))
    &&& valid_utf8(name)
    &&& field(v, key_length()) matches Some(BValue::Int(length))
    &&& 0 <= length <= u32::MAX
    &&& field(v, key_piece_length()) matches Some(BValue::Int(piece_length))
    &&& 0 < piece_length <= u32::MAX
    &&& field(v, key_pieces()) matches Some(BValue::Bytes(pieces))
    &&& pieces.len() % 20 == 0
    &&& pieces_cover(length, piece_length, pieces.len() as int / 20)
}

/// `info` holds what the dictionary `v` says.
pub open spec fn info_from(info: Info, v: BValue) -> bool {
    &&& field(v, key_name()) == Some(BValue::Bytes(encode_utf8(info.name@)))
    &&& field(v, key_length()) == Some(BValue::Int(info.length as int))
    &&& field(v, key_piece_length()) == Some(BValue::Int(info.piece_length as int))
    &&& field(v, key_pieces()) == Some(BValue::Bytes(info.pieces@))
}

fn announce_key() -> (k: [u8; 8])
    ensures
        k@ == key_announce(),
{
    let k: [u8; 8] = [0x61, 0x6e, 0x6e, 0x6f, 0x75, 0x6e, 0x63, 0x65];
    assert(k@ =~= key_announce());
    k
}

fn info_key() -> (k: [u8; 4])
    ensures
        k@ == key_info(),
{
    let k: [u8; 4] = [0x69, 0x6e, 0x66, 0x6f];
    assert(k@ =~= key_info());
    k
}

fn length_key() -> (k: [u8; 6])
    ensures
        k@ == key_length(),
{
    let k: [u8; 6] = [0x6c, 0x65, 0x6e, 0x67, 0x74, 0x68];
    assert(k@ =~= key_length());
    k
}

fn name_key() -> (k: [u8; 4])
    ensures
        k@ == key_name(),
{
    let k: [u8; 4] = [0x6e, 0x61, 0x6d, 0x65];
    assert(k@ =~= key_name());
    k
}

fn piece_length_key() -> (k: [u8; 12])
    ensures
        k@ == key_piece_length(),
{
    let k: [u8; 12] = [0x70, 0x69, 0x65, 0x63, 0x65, 0x20, 0x6c, 0x65, 0x6e, 0x67, 0x74, 0x68];
    assert(k@ =~= key_piece_length());
    k
}

fn pieces_key() -> (k: [u8; 6])
    ensures
        k@ == key_pieces(),
{
    let k: [u8; 6] = [0x70, 0x69, 0x65, 0x63, 0x65, 0x73];
    assert(k@ =~= key_pieces());
    k
}

/// The text that a byte-string field holds, where it is one and is UTF-8.
pub(crate) fn text_field(v: &BencodeValue, key: &[u8]) -> (res: Option<String>)
    ensures
        match res {
            Some(text) => field(v@, key@) == Some(BValue::Bytes(encode_utf8(text@))),
            None => !(field(v@, key@) matches Some(BValue::Bytes(b)) && valid_utf8(b)),
        },
{
    let bytes = match v.get(key) {
        None => {
            return None;
        },
        Some(found) => match found.as_bytes() {
            None => {
                return None;
            },
            Some(bytes) => bytes,
        },
    };
    match string_from_utf8(bytes.clone()) {
        Err(_) => None,
        Ok(text) => {
            proof {
                vstd::utf8::decode_utf8_encode_utf8(bytes@);
            }
            Some(text)
        },
    }
}

/// The number that an integer field holds, where it is one and lies in
/// `low ..= u32::MAX`.
pub(crate) fn number_field(v: &BencodeValue, key: &[u8], low: u32) -> (res: Option<u32>)
    ensures
        match res {
            Some(n) => field(v@, key@) == Some(BValue::Int(n as int)) && low <= n,
            None => !(field(v@, key@) matches Some(BValue::Int(i)) && low <= i <= u32::MAX),
        },
{
    match v.get(key) {
        None => None,
        Some(found) => match found.as_int() {
            None => None,
            Some(i) => if low as i64 <= i && i <= 0xffff_ffff {
                Some(i as u32)
            } else {
                None
            },
        },
    }
}

/// Whether `count` pieces of `piece_length` bytes cover `length` bytes.
fn covers(length: u32, piece_length: u32, count: usize) -> (yes: bool)
    requires
        piece_length > 0,
    ensures
        yes == pieces_cover(length as int, piece_length as int, count as int),
{
    if count == 0 {
        return length == 0;
    }
    if length == 0 {
        assert((count - 1) * piece_length >= 0) by (nonlinear_arith)
            requires
                count >= 1,
                piece_length > 0,
        ;
        return false;
    }
    // The number of pieces that `length` bytes need.
    let needed: u64 = (length as u64 - 1) / (piece_length as u64) + 1;
    proof {
        let l = length as int;
        let p = piece_length as int;
        let n = needed as int;
        let c = count as int;
        assert((n - 1) * p < l <= n * p) by (nonlinear_arith)
            requires
                n == (l - 1) / p + 1,
                p > 0,
                l > 0,
        ;
        if c != n {
            assert(!((c - 1) * p < l <= c * p)) by (nonlinear_arith)
                requires
                    (n - 1) * p < l <= n * p,
                    c != n,
                    p > 0,
            ;
        }
    }
    count as u64 == needed
}

impl Info {
    /// Whether the digests are whole and the pieces cover the file exactly.
    pub fn is_well_formed(&self) -> (ok: bool)
        ensures
            ok == self.well_formed(),
    {
        self.piece_length > 0 && self.pieces.len() % HASH_LEN == 0 && covers(
            self.length,
            self.piece_length,
            self.pieces.len() / HASH_LEN,
        )
    }

    /// Reads an `info` dictionary.
    pub fn from_bencode(v: &BencodeValue) -> (res: Result<Info, TorrentError>)
        ensures
            describes_info(v@) ==> (res matches Ok(info) && info_from(info, v@)
                && info.well_formed()),
            !describes_info(v@) ==> res == Err::<Info, TorrentError>(
                TorrentError::MalformedMetainfo,
            ),
    {
        let name = match text_field(v, name_key().as_slice()) {
            None => {
                return Err(TorrentError::MalformedMetainfo);
            },
            Some(name) => name,
        };
        let length = match number_field(v, length_key().as_slice(), 0) {
            None => {
                return Err(TorrentError::MalformedMetainfo);
            },
            Some(length) => length,
        };
        let piece_length = match number_field(v, piece_length_key().as_slice(), 1) {
            None => {
                return Err(TorrentError::MalformedMetainfo);
            },
            Some(piece_length) => piece_length,
        };
        let pieces = match v.get(pieces_key().as_slice()) {
            None => {
                return Err(TorrentError::MalformedMetainfo);
            },
            Some(found) => match found.as_bytes() {
                None => {
                    return Err(TorrentError::MalformedMetainfo);
                },
                Some(pieces) => pieces,
            },
        };
        if pieces.len() % HASH_LEN != 0 || !covers(length, piece_length, pieces.len() / HASH_LEN) {
            return Err(TorrentError::MalformedMetainfo);
        }
        proof {
            vstd::utf8::encode_utf8_valid_utf8(name@);
        }
        Ok(Info { name, length, piece_length, pieces: pieces.clone() })
    }

    /// Reads a bencoded `info` dictionary, as a peer hands it out.
    pub fn from_bytes(bytes: &[u8]) -> (res: Result<Info, TorrentError>)
        ensures
            match parse_value(bytes@, 0) {
                Parse::Failed { failure } => res == Err::<Info, TorrentError>(as_error(failure)),
                Parse::Done { value, end } => if describes_info(value) {
                    res matches Ok(info) && info_from(info, value) && info.well_formed()
                } else {
                    res == Err::<Info, TorrentError>(TorrentError::MalformedMetainfo)
                },
            },
    {
        match decode_bencoded_value(bytes) {
            Err(e) => Err(e),
            Ok((value, _)) => Info::from_bencode(&value),
        }
    }

    /// The `info` dictionary as a value.
    pub fn to_bencode(&self) -> (v: BencodeValue)
        ensures
            v@ == self.dictionary(),
    {
        let name_bytes = self.name.as_str().as_bytes();
        let name = copy_range(name_bytes, 0, name_bytes.len());
        assert(name@ =~= encode_utf8(self.name@));
        let pieces = copy_range(self.pieces.as_slice(), 0, self.pieces.len());
        assert(pieces@ =~= self.pieces@);
        let key0 = copy_range(length_key().as_slice(), 0, 6);
        assert(key0@ =~= key_length());
        let key1 = copy_range(name_key().as_slice(), 0, 4);
        assert(key1@ =~= key_name());
        let key2 = copy_range(piece_length_key().as_slice(), 0, 12);
        assert(key2@ =~= key_piece_length());
        let key3 = copy_range(pieces_key().as_slice(), 0, 6);
        assert(key3@ =~= key_pieces());
        let mut entries: Vec<DictEntry> = Vec::new();
        entries.push(DictEntry { key: key0, value: BencodeValue::Int(self.length as i64) });
        entries.push(DictEntry { key: key1, value: BencodeValue::Bytes(name) });
        entries.push(DictEntry { key: key2, value: BencodeValue::Int(self.piece_length as i64) });
        entries.push(DictEntry { key: key3, value: BencodeValue::Bytes(pieces) });
        let v = BencodeValue::Dict(entries);
        proof {
            let held = entries_view(entries@);
            assert(v@->Dict_0 =~= held);
            assert(held[0] == self.dictionary()->Dict_0[0]);
            assert(held[1] == self.dictionary()->Dict_0[1]);
            assert(held[2] == self.dictionary()->Dict_0[2]);
            assert(held[3] == self.dictionary()->Dict_0[3]);
            assert(held =~= self.dictionary()->Dict_0);
        }
        v
    }

    /// The bencoded `info` dictionary.
    pub fn to_bytes(&self) -> (bytes: Vec<u8>)
        ensures
            bytes@ == self.encoding(),
    {
        encode_bencoded_value(&self.to_bencode())
    }

    /// The info hash: the SHA-1 digest of the bencoded `info` dictionary.
    pub fn info_hash(&self) -> (hash: [u8; 20])
        ensures
            hash@ == sha1_digest(self.encoding()),
    {
        sha1(self.to_bytes().as_slice())
    }
}


/// `v` is a metainfo dictionary: a UTF-8 `announce` and an `info` dictionary.
pub open spec fn describes_metainfo(v: BValue) -> bool {
    &&& field(v, key_announce()) matches Some(BValue::Bytes(announce))
    &&& valid_utf8(announce)
    &&& field(v, key_info()) matches Some(info)
    &&& describes_info(info)
}

/// `torrent` holds what the metainfo dictionary `v` says.
pub open spec fn torrent_from(torrent: Torrent, v: BValue) -> bool {
    &&& field(v, key_announce()) == Some(BValue::Bytes(encode_utf8(torrent.announce@)))
    &&& field(v, key_info()) matches Some(info)
    &&& info_from(torrent.info, info)
}

impl Torrent {
    pub fn new(announce: String, info: Info) -> (torrent: Self)
        ensures
            torrent.announce == announce,
            torrent.info == info,
    {
        Self { announce, info }
    }

    /// Reads the bytes of a metainfo file.
    pub fn from_bytes(file: &[u8]) -> (res: Result<Torrent, TorrentError>)
        ensures
            match parse_value(file@, 0) {
                Parse::Failed { failure } => res == Err::<Torrent, TorrentError>(as_error(failure)),
                Parse::Done { value, end } => if describes_metainfo(value) {
                    res matches Ok(torrent) && torrent_from(torrent, value)
                        && torrent.info.well_formed()
                } else {
                    res == Err::<Torrent, TorrentError>(TorrentError::MalformedMetainfo)
                },
            },
    {
        let value = match decode_bencoded_value(file) {
            Err(e) => {
                return Err(e);
            },
            Ok((value, _)) => value,
        };
        let announce = match text_field(&value, announce_key().as_slice()) {
            None => {
                return Err(TorrentError::MalformedMetainfo);
            },
            Some(announce) => announce,
        };
        match value.get(info_key().as_slice()) {
            None => Err(TorrentError::MalformedMetainfo),
            Some(dictionary) => match Info::from_bencode(dictionary) {
                Err(e) => Err(e),
                Ok(info) => {
                    proof {
                        vstd::utf8::encode_utf8_valid_utf8(announce@);
                    }
                    Ok(Torrent { announce, info })
                },
            },
        }
    }

    /// The info hash: the SHA-1 digest of the bencoded `info` dictionary.
    pub fn get_info_hash(&self) -> (hash: [u8; 20])
        ensures
            hash@ == sha1_digest(self.info.encoding()),
    {
        self.info.info_hash()
    }

    /// The number of pieces.
    pub fn get_piece_count(&self) -> (count: usize)
        ensures
            count == self.info.piece_count(),
    {
        self.info.pieces.len() / HASH_LEN
    }

    /// The length of piece `piece_index`.
    pub fn get_piece_length(&self, piece_index: usize) -> (length: u32)
        requires
            self.info.well_formed(),
            piece_index < self.info.piece_count(),
        ensures
            length == self.info.piece_length_at(piece_index as int),
            0 < length <= self.info.piece_length,
    {
        let count = self.info.pieces.len() / HASH_LEN;
        if piece_index == count - 1 {
            assert(count * self.info.piece_length == (count - 1) * self.info.piece_length
                + self.info.piece_length) by (nonlinear_arith);
            let before: u64 = (count as u64 - 1) * (self.info.piece_length as u64);
            (self.info.length as u64 - before) as u32
        } else {
            self.info.piece_length
        }
    }

    /// The digest of piece `piece_index`.
    pub fn get_piece_hash(&self, piece_index: usize) -> (hash: [u8; 20])
        requires
            piece_index < self.info.piece_count(),
        ensures
            hash@ == self.info.piece_hash_at(piece_index as int),
    {
        let total = self.info.pieces.len();
        assert(piece_index * 20 + 20 <= total);
        array_from::<20>(self.info.pieces.as_slice(), piece_index * 20)
    }

    /// The digests of all pieces in order, each as forty hexadecimal digits.
    pub fn get_piece_hashes(&self) -> (hashes: Vec<String>)
        ensures
            hashes.len() == self.info.piece_count(),
            forall|i: int|
                0 <= i < hashes.len() ==> (#[trigger] hashes[i])@ == hex_text(
                    self.info.piece_hash_at(i),
                ),
    {
        let count = self.get_piece_count();
        let mut hashes: Vec<String> = Vec::new();
        let mut i: usize = 0;
        while i < count
            invariant
                i <= count,
                count == self.info.piece_count(),
                hashes.len() == i,
                forall|j: int|
                    0 <= j < i ==> (#[trigger] hashes[j])@ == hex_text(self.info.piece_hash_at(j)),
            decreases count - i,
        {
            let hash = self.get_piece_hash(i);
            hashes.push(hex_encode(hash.as_slice()));
            i += 1;
        }
        hashes
    }
}

/// Piece accounting: the lengths of all pieces add up to the length of the
/// file, and every piece but the last has the general piece length.
pub proof fn lemma_piece_accounting(info: Info)
    requires
        info.well_formed(),
    ensures
        info.total_length(info.piece_count() as nat) == info.length,
        forall|i: int|
            0 <= i < info.piece_count() - 1 ==> #[trigger] info.piece_length_at(i)
                == info.piece_length,
        forall|i: int|
            0 <= i < info.piece_count() ==> 0 < #[trigger] info.piece_length_at(i)
                <= info.piece_length,
{
    let count = info.piece_count();
    if count > 0 {
        lemma_full_pieces(info, (count - 1) as nat);
        assert(count * info.piece_length == (count - 1) * info.piece_length + info.piece_length)
            by (nonlinear_arith);
    }
}

/// The first `n` pieces, none of them the last, hold `n` general lengths.
proof fn lemma_full_pieces(info: Info, n: nat)
    requires
        n < info.piece_count(),
    ensures
        info.total_length(n) == n * info.piece_length,
    decreases n,
{
    if n > 0 {
        lemma_full_pieces(info, (n - 1) as nat);
        assert(info.piece_length_at(n - 1) == info.piece_length);
        assert(n * info.piece_length == (n - 1) * info.piece_length + info.piece_length)
            by (nonlinear_arith);
    } else {
        assert(n * info.piece_length == 0) by (nonlinear_arith)
            requires
                n == 0,
        ;
    }
}


/// The pieces before piece `n` take `n` general lengths: piece `n` starts at
/// offset `n * piece_length`.
pub proof fn lemma_total_length(info: Info, n: nat)
    requires
        n < info.piece_count(),
    ensures
        info.total_length(n) == n * info.piece_length,
{
    lemma_full_pieces(info, n);
}


/// An `info` dictionary that holds the four keys this client knows, in
/// lexicographic order, and no other.
pub open spec fn plain_info(v: BValue) -> bool {
    &&& v matches BValue::Dict(entries)
    &&& entries.len() == 4
    &&& entries[0].key == key_length()
    &&& entries[1].key == key_name()
    &&& entries[2].key == key_piece_length()
    &&& entries[3].key == key_pieces()
}

/// The info hash is stable: it depends on nothing but what the `info`
/// dictionary holds; and where a plain `info` dictionary was read from
/// bytes, encoding it again gives those bytes, so that the info hash is the
/// digest of the bytes as they stood in the file.
pub proof fn lemma_info_hash_stable(s: Seq<u8>, info: Info, other: Info)
    requires
        parse_value(s, 0) is Done,
        plain_info(parse_value(s, 0)->value),
        info_from(info, parse_value(s, 0)->value),
        info_from(other, parse_value(s, 0)->value),
    ensures
        info.encoding() == s.subrange(0, parse_value(s, 0)->end),
        sha1_digest(info.encoding()) == sha1_digest(other.encoding()),
{
    let value = parse_value(s, 0)->value;
    lemma_plain_info(value, info);
    lemma_plain_info(value, other);
    lemma_decode_encode_roundtrip(s);
}

/// A plain `info` dictionary is the dictionary of the `Info` read from it,
/// and its keys are in order.
proof fn lemma_plain_info(value: BValue, info: Info)
    requires
        plain_info(value),
        info_from(info, value),
    ensures
        value == info.dictionary(),
        keys_sorted(value),
{
    let entries = value->Dict_0;
    let ours = info.dictionary()->Dict_0;
    reveal_with_fuel(lookup, 5);
    reveal_with_fuel(lex_le, 8);
    assert(key_length()[0] != key_name()[0]);
    assert(key_length()[0] != key_piece_length()[0]);
    assert(key_length()[0] != key_pieces()[0]);
    assert(key_name()[0] != key_piece_length()[0]);
    assert(key_name()[0] != key_pieces()[0]);
    assert(key_piece_length().len() != key_pieces().len());
    let rest1 = entries.drop_first();
    let rest2 = rest1.drop_first();
    let rest3 = rest2.drop_first();
    assert(rest1[0] == entries[1] && rest2[0] == entries[2] && rest3[0] == entries[3]);
    assert(entries[0].value == ours[0].value);
    assert(entries[1].value == ours[1].value);
    assert(entries[2].value == ours[2].value);
    assert(entries[3].value == ours[3].value);
    assert(entries =~= ours);
    assert(lex_le(key_length(), key_name()));
    assert(lex_le(key_length(), key_piece_length()));
    assert(lex_le(key_length(), key_pieces()));
    assert(lex_le(key_name(), key_piece_length()));
    assert(lex_le(key_name(), key_pieces()));
    assert(lex_le(key_piece_length(), key_pieces())) by {
        let a = key_piece_length();
        let b = key_pieces();
        let a1 = a.drop_first();
        let b1 = b.drop_first();
        let a2 = a1.drop_first();
        let b2 = b1.drop_first();
        let a3 = a2.drop_first();
        let b3 = b2.drop_first();
        let a4 = a3.drop_first();
        let b4 = b3.drop_first();
        let a5 = a4.drop_first();
        let b5 = b4.drop_first();
        assert(a5[0] == 0x20 && b5[0] == 0x73);
    }
    assert forall|i: int, j: int| 0 <= i < j < entries.len() implies lex_le(
        (#[trigger] entries[i]).key,
        (#[trigger] entries[j]).key,
    ) by {}
    assert forall|i: int| 0 <= i < entries.len() implies keys_sorted(
        (#[trigger] entries[i]).value,
    ) by {
        assert(entries[i].value == ours[i].value);
    }
}


/// What an `Info` encodes to is read back as that `Info`: the bytes decode
/// to its dictionary, which describes an `info` dictionary wherever the
/// `Info` is well-formed, and says what the `Info` holds.
pub proof fn lemma_info_read_back(info: Info, rest: Seq<u8>)
    ensures
        parse_value(info.encoding() + rest, 0) == (Parse::Done {
            value: info.dictionary(),
            end: info.encoding().len() as int,
        }),
        info_from(info, info.dictionary()),
        info.well_formed() ==> describes_info(info.dictionary()),
{
    let value = info.dictionary();
    let entries = value->Dict_0;
    reveal_with_fuel(lookup, 5);
    assert(key_length()[0] != key_name()[0]);
    assert(key_length()[0] != key_piece_length()[0]);
    assert(key_length()[0] != key_pieces()[0]);
    assert(key_name()[0] != key_piece_length()[0]);
    assert(key_name()[0] != key_pieces()[0]);
    assert(key_piece_length().len() != key_pieces().len());
    let rest1 = entries.drop_first();
    let rest2 = rest1.drop_first();
    let rest3 = rest2.drop_first();
    assert(rest1[0] == entries[1] && rest2[0] == entries[2] && rest3[0] == entries[3]);
    assert(info_from(info, value));
    lemma_plain_info(value, info);
    assert forall|i: int| 0 <= i < entries.len() implies storable(
        (#[trigger] entries[i]).value,
    ) by {}
    lemma_encode_decode_roundtrip(value, rest);
    vstd::utf8::encode_utf8_valid_utf8(info.name@);
}

} // verus!
