//! Length-prefixed peer messages and the payloads this client reads and
//! writes.

use vstd::prelude::*;
use crate::bytes::{
    append_bytes, array_from, be32, copy_range, from_be32, lemma_be32_roundtrip, push_be32,
    read_be32,
};
use crate::bencode::encode::encode_bencoded_value;
use crate::bencode::grammar::{
    decimal_digits, encode_value, field, parse_value, write_bytes, BEntry, BValue, Parse,
};
use crate::bencode::laws::{lemma_decimal_digits_len, lemma_encode_single, pow10};
use crate::bencode::{as_error, decode_bencoded_value, BencodeValue, DictEntry};
use crate::errors::TorrentError;

verus! {

/// The largest block a request may ask for: 16 KiB.
pub const BLOCK_SIZE: u32 = 16384;

/// The kinds of message this client knows.
#[derive(Debug, Clone, Copy, PartialEq, Eq, Structural)]
pub enum MessageId {
    Choke,
    Unchoke,
    Interested,
    NotInterested,
    Have,
    Bitfield,
    Request,
    Piece,
    Cancel,
    Extension,
}

/// The kind that a wire id stands for, if any.
pub open spec fn id_kind(value: u8) -> Option<MessageId> {
    if value == 0 {
        Some(MessageId::Choke)
    } else if value == 1 {
        Some(MessageId::Unchoke)
    } else if value == 2 {
        Some(MessageId::Interested)
    } else if value == 3 {
        Some(MessageId::NotInterested)
    } else if value == 4 {
        Some(MessageId::Have)
    } else if value == 5 {
        Some(MessageId::Bitfield)
    } else if value == 6 {
        Some(MessageId::Request)
    } else if value == 7 {
        Some(MessageId::Piece)
    } else if value == 8 {
        Some(MessageId::Cancel)
    } else if value == 20 {
        Some(MessageId::Extension)
    } else {
        None
    }
}

impl MessageId {
    /// The id that stands for this kind on the wire.
    pub open spec fn wire_id(self) -> u8 {
        match self {
            MessageId::Choke => 0,
            MessageId::Unchoke => 1,
            MessageId::Interested => 2,
            MessageId::NotInterested => 3,
            MessageId::Have => 4,
            MessageId::Bitfield => 5,
            MessageId::Request => 6,
            MessageId::Piece => 7,
            MessageId::Cancel => 8,
            MessageId::Extension => 20,
        }
    }

    /// The kind of message that `value` announces.
    pub fn from(value: u8) -> (res: Result<MessageId, TorrentError>)
        ensures
            match id_kind(value) {
                Some(kind) => res == Ok::<MessageId, TorrentError>(kind),
                None => res == Err::<MessageId, TorrentError>(
                    TorrentError::UnknownMessageId { id: value },
                ),
            },
    {
        match value {
            0 => Ok(MessageId::Choke),
            1 => Ok(MessageId::Unchoke),
            2 => Ok(MessageId::Interested),
            3 => Ok(MessageId::NotInterested),
            4 => Ok(MessageId::Have),
            5 => Ok(MessageId::Bitfield),
            6 => Ok(MessageId::Request),
            7 => Ok(MessageId::Piece),
            8 => Ok(MessageId::Cancel),
            20 => Ok(MessageId::Extension),
            _ => Err(TorrentError::UnknownMessageId { id: value }),
        }
    }

    /// The wire id of this kind.
    pub fn to_u8(self) -> (id: u8)
        ensures
            id == self.wire_id(),
            id_kind(id) == Some(self),
    {
        match self {
            MessageId::Choke => 0,
            MessageId::Unchoke => 1,
            MessageId::Interested => 2,
            MessageId::NotInterested => 3,
            MessageId::Have => 4,
            MessageId::Bitfield => 5,
            MessageId::Request => 6,
            MessageId::Piece => 7,
            MessageId::Cancel => 8,
            MessageId::Extension => 20,
        }
    }
}

/// A message as it stands on the wire: the big-endian length of what
/// follows, the id, the payload.
#[derive(Debug)]
pub struct PeerMessage {
    pub length: [u8; 4],
    pub message_id: [u8; 1],
    pub payload: Vec<u8>,
}

/// The frame that carries `payload` under `id`.
pub open spec fn frame_of(id: u8, payload: Seq<u8>) -> Seq<u8> {
    be32((1 + payload.len()) as u32) + seq![id] + payload
}

impl PeerMessage {
    /// The bytes of the message, length prefix first.
    pub open spec fn frame(&self) -> Seq<u8> {
        self.length@ + self.message_id@ + self.payload@
    }

    /// The length prefix counts the id and the payload.
    pub open spec fn well_formed(&self) -> bool {
        &&& 1 + self.payload@.len() <= u32::MAX
        &&& self.length@ == be32((1 + self.payload@.len()) as u32)
    }

    /// The message of kind `message_id` that carries `payload`.
    pub fn new(message_id: MessageId, payload: Vec<u8>) -> (m: Self)
        requires
            1 + payload.len() <= u32::MAX,
        ensures
            m.well_formed(),
            m.message_id@ == seq![message_id.wire_id()],
            m.payload == payload,
            m.frame() == frame_of(message_id.wire_id(), payload@),
    {
        let total: u32 = 1 + payload.len() as u32;
        let mut prefix: Vec<u8> = Vec::new();
        push_be32(&mut prefix, total);
        let length = array_from::<4>(prefix.as_slice(), 0);
        let message_id = [message_id.to_u8()];
        assert(length@ =~= be32(total));
        let m = Self { length, message_id, payload };
        assert(m.message_id@ =~= seq![message_id@[0]]);
        m
    }

    /// The message whose id and payload are `bytes`, which is what follows
    /// the length prefix on the wire.
    pub fn from_bytes(bytes: &[u8]) -> (res: Result<Self, TorrentError>)
        requires
            bytes.len() <= u32::MAX,
        ensures
            bytes.len() == 0 ==> res == Err::<Self, TorrentError>(TorrentError::ShortRead),
            bytes.len() > 0 ==> res is Ok && res->Ok_0.well_formed() && res->Ok_0.message_id@
                == seq![bytes@[0]] && res->Ok_0.payload@ == bytes@.subrange(
                1,
                bytes.len() as int,
            ),
    {
        if bytes.len() == 0 {
            return Err(TorrentError::ShortRead);
        }
        let mut prefix: Vec<u8> = Vec::new();
        push_be32(&mut prefix, bytes.len() as u32);
        let length = array_from::<4>(prefix.as_slice(), 0);
        let message_id = [bytes[0]];
        let payload = copy_range(bytes, 1, bytes.len());
        assert(length@ =~= be32(bytes.len() as u32));
        let m = Self { length, message_id, payload };
        assert(m.message_id@ =~= seq![bytes@[0]]);
        Ok(m)
    }

    /// The bytes to put on the wire.
    pub fn to_bytes(&self) -> (bytes: Vec<u8>)
        ensures
            bytes@ == self.frame(),
    {
        let mut bytes: Vec<u8> = Vec::new();
        append_bytes(&mut bytes, self.length.as_slice());
        append_bytes(&mut bytes, self.message_id.as_slice());
        append_bytes(&mut bytes, self.payload.as_slice());
        assert(bytes@ =~= self.frame());
        bytes
    }
}

/// What stands at the start of a receive buffer.
#[derive(Debug)]
pub enum Frame {
    /// Fewer bytes than a whole frame: read more.
    Incomplete,
    /// A frame of length zero. It took four bytes.
    KeepAlive,
    /// A message. It took `4 + 1 + payload.len()` bytes.
    Message { id: MessageId, payload: Vec<u8> },
}

/// The length that the first four bytes of `buffer` announce.
pub open spec fn announced_length(buffer: Seq<u8>) -> int {
    from_be32(buffer.subrange(0, 4)) as int
}

/// Reads one frame from the start of `buffer`, which holds what has been
/// received and not yet consumed. Returns the frame and how many bytes of
/// `buffer` it took.
pub fn read_frame(buffer: &[u8]) -> (res: Result<(Frame, usize), TorrentError>)
    ensures
        buffer.len() < 4 ==> (res matches Ok(pair) && pair.0 is Incomplete && pair.1 == 0),
        buffer.len() >= 4 && announced_length(buffer@) == 0 ==> (res matches Ok(pair) && pair.0
            is KeepAlive && pair.1 == 4),
        buffer.len() >= 4 && announced_length(buffer@) > 0 && buffer.len() < 4 + announced_length(
            buffer@,
        ) ==> (res matches Ok(pair) && pair.0 is Incomplete && pair.1 == 0),
        buffer.len() >= 4 && announced_length(buffer@) > 0 && buffer.len() >= 4 + announced_length(
            buffer@,
        ) ==> match id_kind(buffer@[4]) {
            Some(kind) => (res matches Ok(pair) && pair.1 == 4 + announced_length(buffer@)
                && (pair.0 matches Frame::Message { id, payload } && id == kind && payload@
                == buffer@.subrange(5, 4 + announced_length(buffer@)))),
            None => res == Err::<(Frame, usize), TorrentError>(
                TorrentError::UnknownMessageId { id: buffer@[4] },
            ),
        },
{
    if buffer.len() < 4 {
        return Ok((Frame::Incomplete, 0));
    }
    let length = read_be32(buffer, 0);
    if length == 0 {
        return Ok((Frame::KeepAlive, 4));
    }
    if buffer.len() - 4 < length as usize {
        return Ok((Frame::Incomplete, 0));
    }
    let end = 4 + length as usize;
    match MessageId::from(buffer[4]) {
        Err(e) => Err(e),
        Ok(id) => {
            let payload = copy_range(buffer, 5, end);
            Ok((Frame::Message { id, payload }, end))
        },
    }
}

/// The payload of a Piece message: a block of piece `index` that starts at
/// byte `begin` of the piece.
#[derive(Debug)]
pub struct PiecePayload {
    pub index: u32,
    pub begin: u32,
    pub block: Vec<u8>,
}

impl PiecePayload {
    /// Reads `index`, `begin` and the block, which is all that follows them.
    pub fn from_bytes(bytes: &[u8]) -> (res: Result<Self, TorrentError>)
        ensures
            bytes.len() < 8 ==> res == Err::<Self, TorrentError>(TorrentError::ShortRead),
            bytes.len() >= 8 ==> (res matches Ok(p) && p.index == from_be32(bytes@.subrange(0, 4))
                && p.begin == from_be32(bytes@.subrange(4, 8)) && p.block@ == bytes@.subrange(
                8,
                bytes.len() as int,
            )),
    {
        if bytes.len() < 8 {
            return Err(TorrentError::ShortRead);
        }
        let index = read_be32(bytes, 0);
        let begin = read_be32(bytes, 4);
        let block = copy_range(bytes, 8, bytes.len());
        Ok(Self { index, begin, block })
    }
}

/// The payload of a Request or Cancel message.
#[derive(Debug, Clone, Copy, PartialEq, Eq, Structural)]
pub struct RequestPayload {
    pub index: u32,
    pub begin: u32,
    pub length: u32,
}

impl RequestPayload {
    pub fn new(index: u32, begin: u32, length: u32) -> (p: Self)
        ensures
            p.index == index,
            p.begin == begin,
            p.length == length,
    {
        Self { index, begin, length }
    }

    /// The twelve bytes of the payload.
    pub open spec fn wire(&self) -> Seq<u8> {
        be32(self.index) + be32(self.begin) + be32(self.length)
    }

    /// The twelve bytes of the payload.
    pub fn to_bytes(&self) -> (bytes: Vec<u8>)
        ensures
            bytes@ == self.wire(),
            bytes@.len() == 12,
    {
        let mut bytes: Vec<u8> = Vec::new();
        push_be32(&mut bytes, self.index);
        push_be32(&mut bytes, self.begin);
        push_be32(&mut bytes, self.length);
        assert(bytes@ =~= self.wire());
        bytes
    }

    /// Reads a payload of exactly twelve bytes.
    pub fn from_bytes(bytes: &[u8]) -> (res: Result<Self, TorrentError>)
        ensures
            bytes.len() != 12 ==> res == Err::<Self, TorrentError>(TorrentError::ShortRead),
            bytes.len() == 12 ==> (res matches Ok(p) && p.wire() == bytes@),
    {
        if bytes.len() != 12 {
            return Err(TorrentError::ShortRead);
        }
        let p = Self {
            index: read_be32(bytes, 0),
            begin: read_be32(bytes, 4),
            length: read_be32(bytes, 8),
        };
        proof {
            lemma_be32_roundtrip(0, bytes@.subrange(0, 4));
            lemma_be32_roundtrip(0, bytes@.subrange(4, 8));
            lemma_be32_roundtrip(0, bytes@.subrange(8, 12));
            assert(p.wire() =~= bytes@);
        }
        Ok(p)
    }
}

/// Writing a request and reading it back gives the request again.
pub proof fn lemma_request_roundtrip(p: RequestPayload)
    ensures
        p.wire().len() == 12,
        from_be32(p.wire().subrange(0, 4)) == p.index,
        from_be32(p.wire().subrange(4, 8)) == p.begin,
        from_be32(p.wire().subrange(8, 12)) == p.length,
{
    lemma_be32_roundtrip(p.index, Seq::empty());
    lemma_be32_roundtrip(p.begin, Seq::empty());
    lemma_be32_roundtrip(p.length, Seq::empty());
    assert(p.wire().subrange(0, 4) =~= be32(p.index));
    assert(p.wire().subrange(4, 8) =~= be32(p.begin));
    assert(p.wire().subrange(8, 12) =~= be32(p.length));
}


/// The key `m`.
pub open spec fn key_m() -> Seq<u8> {
    seq![0x6du8]
}

/// The key `ut_metadata`.
pub open spec fn key_ut_metadata() -> Seq<u8> {
    seq![0x75u8, 0x74, 0x5f, 0x6d, 0x65, 0x74, 0x61, 0x64, 0x61, 0x74, 0x61]
}

/// The table of extensions `{ ut_metadata: id }`.
pub open spec fn extension_table(id: u32) -> BValue {
    BValue::Dict(seq![BEntry { key: key_ut_metadata(), value: BValue::Int(id as int) }])
}

/// The body of an extension handshake, `{ m: { ut_metadata: id } }`.
pub open spec fn extension_handshake(id: u32) -> BValue {
    BValue::Dict(seq![BEntry { key: key_m(), value: extension_table(id) }])
}

/// The id under `ut_metadata` in a table of extensions, where it is a number
/// that fits in 32 bits.
pub open spec fn table_id(table: BValue) -> Option<u32> {
    match field(table, key_ut_metadata()) {
        Some(BValue::Int(id)) => if 0 <= id <= u32::MAX {
            Some(id as u32)
        } else {
            None
        },
        _ => None,
    }
}

/// The id under `m`, then `ut_metadata`, in the body of an extension
/// handshake.
pub open spec fn handshake_id(body: BValue) -> Option<u32> {
    match field(body, key_m()) {
        Some(table) => table_id(table),
        None => None,
    }
}

fn m_key() -> (k: [u8; 1])
    ensures
        k@ == key_m(),
{
    let k: [u8; 1] = [0x6d];
    assert(k@ =~= key_m());
    k
}

fn ut_metadata_key() -> (k: [u8; 11])
    ensures
        k@ == key_ut_metadata(),
{
    let k: [u8; 11] = [0x75, 0x74, 0x5f, 0x6d, 0x65, 0x74, 0x61, 0x64, 0x61, 0x74, 0x61];
    assert(k@ =~= key_ut_metadata());
    k
}

/// The extensions a peer offers, as far as this client uses them: the id
/// under which the peer takes `ut_metadata` messages.
#[derive(Debug, Clone, Copy, PartialEq, Eq, Structural)]
pub struct ExtensionPayloadDataM {
    pub ut_metadata: u32,
}

/// What an extension handshake carries: the table `m`.
#[derive(Debug, Clone, Copy, PartialEq, Eq, Structural)]
pub struct ExtensionPayloadData {
    pub m: ExtensionPayloadDataM,
}

/// The payload of an Extension message that carries a handshake: the
/// extension message id, then the bencoded body.
#[derive(Debug, Clone, Copy, PartialEq, Eq, Structural)]
pub struct ExtensionPayload {
    pub message_id: u8,
    pub payload: ExtensionPayloadData,
}

fn read_table_id(table: &BencodeValue) -> (res: Option<u32>)
    ensures
        res == table_id(table@),
{
    match table.get(ut_metadata_key().as_slice()) {
        None => None,
        Some(found) => match found.as_int() {
            None => None,
            Some(id) => if 0 <= id && id <= 0xffff_ffff {
                Some(id as u32)
            } else {
                None
            },
        },
    }
}

impl ExtensionPayloadDataM {
    pub fn new(ut_metadata: u32) -> (m: Self)
        ensures
            m.ut_metadata == ut_metadata,
    {
        Self { ut_metadata }
    }

    /// The id as four bytes, most significant first.
    pub fn to_bytes(&self) -> (bytes: Vec<u8>)
        ensures
            bytes@ == be32(self.ut_metadata),
    {
        let mut bytes: Vec<u8> = Vec::new();
        push_be32(&mut bytes, self.ut_metadata);
        bytes
    }

    /// The table as a bencode value.
    pub fn to_bencode(&self) -> (v: BencodeValue)
        ensures
            v@ == extension_table(self.ut_metadata),
    {
        let mut entries: Vec<DictEntry> = Vec::new();
        let id = BencodeValue::Int(self.ut_metadata as i64);
        entries.push(DictEntry::new(ut_metadata_key().as_slice(), id));
        let v = BencodeValue::dict_of(entries);
        assert(v@->Dict_0 =~= extension_table(self.ut_metadata)->Dict_0);
        v
    }

    /// Reads a bencoded table `{ ut_metadata: id, .. }`.
    pub fn from_bytes(bytes: &[u8]) -> (res: Result<Self, TorrentError>)
        ensures
            match parse_value(bytes@, 0) {
                Parse::Failed { failure } => res == Err::<Self, TorrentError>(as_error(failure)),
                Parse::Done { value, end } => match table_id(value) {
                    Some(id) => res == Ok::<Self, TorrentError>(
                        ExtensionPayloadDataM { ut_metadata: id },
                    ),
                    None => res == Err::<Self, TorrentError>(TorrentError::PeerMisbehaved),
                },
            },
    {
        match decode_bencoded_value(bytes) {
            Err(e) => Err(e),
            Ok((value, _)) => match read_table_id(&value) {
                Some(id) => Ok(Self { ut_metadata: id }),
                None => Err(TorrentError::PeerMisbehaved),
            },
        }
    }
}

impl ExtensionPayloadData {
    pub fn new(m: ExtensionPayloadDataM) -> (data: Self)
        ensures
            data.m == m,
    {
        Self { m }
    }

    /// The bencoded body `{ m: { ut_metadata: id } }`.
    pub fn to_bytes(&self) -> (bytes: Vec<u8>)
        ensures
            bytes@ == encode_value(extension_handshake(self.m.ut_metadata)),
            bytes@.len() <= 33,
    {
        proof {
            lemma_extension_handshake_len(self.m.ut_metadata);
        }
        let mut entries: Vec<DictEntry> = Vec::new();
        entries.push(DictEntry::new(m_key().as_slice(), self.m.to_bencode()));
        let v = BencodeValue::dict_of(entries);
        assert(v@->Dict_0 =~= extension_handshake(self.m.ut_metadata)->Dict_0);
        encode_bencoded_value(&v)
    }

    /// Reads a bencoded body `{ m: { ut_metadata: id, .. }, .. }`.
    pub fn from_bytes(bytes: &[u8]) -> (res: Result<Self, TorrentError>)
        ensures
            match parse_value(bytes@, 0) {
                Parse::Failed { failure } => res == Err::<Self, TorrentError>(as_error(failure)),
                Parse::Done { value, end } => match handshake_id(value) {
                    Some(id) => res == Ok::<Self, TorrentError>(
                        ExtensionPayloadData { m: ExtensionPayloadDataM { ut_metadata: id } },
                    ),
                    None => res == Err::<Self, TorrentError>(TorrentError::PeerMisbehaved),
                },
            },
    {
        match decode_bencoded_value(bytes) {
            Err(e) => Err(e),
            Ok((value, _)) => match value.get(m_key().as_slice()) {
                None => Err(TorrentError::PeerMisbehaved),
                Some(table) => match read_table_id(table) {
                    Some(id) => Ok(Self { m: ExtensionPayloadDataM { ut_metadata: id } }),
                    None => Err(TorrentError::PeerMisbehaved),
                },
            },
        }
    }
}

impl ExtensionPayload {
    pub fn new(message_id: u8, payload: ExtensionPayloadData) -> (p: Self)
        ensures
            p.message_id == message_id,
            p.payload == payload,
    {
        Self { message_id, payload }
    }

    /// The extension message id, then the bencoded body.
    pub fn to_bytes(&self) -> (bytes: Vec<u8>)
        ensures
            bytes@ == seq![self.message_id] + encode_value(
                extension_handshake(self.payload.m.ut_metadata),
            ),
            bytes@.len() <= 34,
    {
        let mut bytes: Vec<u8> = Vec::new();
        bytes.push(self.message_id);
        append_bytes(&mut bytes, self.payload.to_bytes().as_slice());
        bytes
    }

    /// Reads the extension message id and the bencoded body behind it.
    pub fn from_bytes(bytes: &[u8]) -> (res: Result<Self, TorrentError>)
        ensures
            bytes.len() == 0 ==> res == Err::<Self, TorrentError>(TorrentError::ShortRead),
            bytes.len() > 0 ==> match parse_value(bytes@.subrange(1, bytes.len() as int), 0) {
                Parse::Failed { failure } => res == Err::<Self, TorrentError>(as_error(failure)),
                Parse::Done { value, end } => match handshake_id(value) {
                    Some(id) => res == Ok::<Self, TorrentError>(
                        ExtensionPayload {
                            message_id: bytes@[0],
                            payload: ExtensionPayloadData {
                                m: ExtensionPayloadDataM { ut_metadata: id },
                            },
                        },
                    ),
                    None => res == Err::<Self, TorrentError>(TorrentError::PeerMisbehaved),
                },
            },
    {
        if bytes.len() == 0 {
            return Err(TorrentError::ShortRead);
        }
        let message_id = bytes[0];
        match ExtensionPayloadData::from_bytes(vstd::slice::slice_subrange(bytes, 1, bytes.len())) {
            Err(e) => Err(e),
            Ok(payload) => Ok(Self { message_id, payload }),
        }
    }
}


/// The body of an extension handshake takes at most 33 bytes.
pub proof fn lemma_extension_handshake_len(id: u32)
    ensures
        encode_value(extension_handshake(id)).len() <= 33,
{
    let number = BValue::Int(id as int);
    let inner = BEntry { key: key_ut_metadata(), value: number };
    let outer = BEntry { key: key_m(), value: extension_table(id) };
    lemma_encode_single(inner);
    lemma_encode_single(outer);
    assert(pow10(10) == 10_000_000_000) by {
        reveal_with_fuel(pow10, 11);
    }
    lemma_decimal_digits_len(id as nat, 10);
    assert(decimal_digits(1).len() == 1);
    assert(decimal_digits(11).len() == 2) by {
        reveal_with_fuel(decimal_digits, 2);
    }
    assert(write_bytes(key_m()).len() == 3);
    assert(write_bytes(key_ut_metadata()).len() == 14);
    assert(encode_value(number).len() <= 12);
}

} // verus!
