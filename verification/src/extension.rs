//! Fetching the `info` dictionary from a peer, for a download that starts
//! from a magnet link.

use vstd::prelude::*;
use crate::bencode::encode::encode_bencoded_value;
use crate::bencode::grammar::{encode_value, field, parse_value, BEntry, BValue, Parse};
use crate::bencode::{as_error, decode_bencoded_value, BencodeValue, DictEntry};
use crate::bytes::{append_bytes, copy_range};
use crate::digest::{has_digest, sha1_digest};
use crate::errors::TorrentError;
use crate::peer_messages::{
    extension_handshake, handshake_id, ExtensionPayload, ExtensionPayloadData,
    ExtensionPayloadDataM,
};
use crate::session::{PeerSession, SessionView};
use crate::torrent::{describes_info, info_from, Info};

verus! {

/// The id under which this client takes `ut_metadata` messages.
pub const OUR_METADATA_ID: u8 = 21;

/// The length of every piece of metadata but the last.
pub const METADATA_PIECE_LEN: usize = 16384;

/// The key `msg_type`.
pub open spec fn key_msg_type() -> Seq<u8> {
    seq![0x6du8, 0x73, 0x67, 0x5f, 0x74, 0x79, 0x70, 0x65]
}

/// The key `piece`.
pub open spec fn key_piece() -> Seq<u8> {
    seq![0x70u8, 0x69, 0x65, 0x63, 0x65]
}

/// The key `total_size`.
pub open spec fn key_total_size() -> Seq<u8> {
    seq![0x74u8, 0x6f, 0x74, 0x61, 0x6c, 0x5f, 0x73, 0x69, 0x7a, 0x65]
}

fn msg_type_key() -> (k: [u8; 8])
    ensures
        k@ == key_msg_type(),
{
    let k: [u8; 8] = [0x6d, 0x73, 0x67, 0x5f, 0x74, 0x79, 0x70, 0x65];
    assert(k@ =~= key_msg_type());
    k
}

fn piece_key() -> (k: [u8; 5])
    ensures
        k@ == key_piece(),
{
    let k: [u8; 5] = [0x70, 0x69, 0x65, 0x63, 0x65];
    assert(k@ =~= key_piece());
    k
}

fn total_size_key() -> (k: [u8; 10])
    ensures
        k@ == key_total_size(),
{
    let k: [u8; 10] = [0x74, 0x6f, 0x74, 0x61, 0x6c, 0x5f, 0x73, 0x69, 0x7a, 0x65];
    assert(k@ =~= key_total_size());
    k
}

/// The payload of the Extension message that opens the extension protocol:
/// extension message id 0, then `{ m: { ut_metadata: 21 } }`.
pub fn extension_handshake_payload() -> (bytes: Vec<u8>)
    ensures
        bytes@ == seq![0u8] + encode_value(extension_handshake(OUR_METADATA_ID as u32)),
        bytes@.len() <= 34,
{
    ExtensionPayload::new(
        0,
        ExtensionPayloadData::new(ExtensionPayloadDataM::new(OUR_METADATA_ID as u32)),
    ).to_bytes()
}

/// The id under which a peer takes metadata requests, as the payload of its
/// extension handshake gives it: the payload is extension message 0, its
/// body holds `m`, and `ut_metadata` in it is a number that fits in a byte.
pub open spec fn offered_id(payload: Seq<u8>) -> Result<u8, TorrentError> {
    if payload.len() == 0 {
        Err(TorrentError::ShortRead)
    } else {
        match parse_value(payload.subrange(1, payload.len() as int), 0) {
            Parse::Failed { failure } => Err(as_error(failure)),
            Parse::Done { value, end } => match handshake_id(value) {
                Some(id) => if payload[0] == 0 && id <= 255 {
                    Ok(id as u8)
                } else {
                    Err(TorrentError::PeerMisbehaved)
                },
                None => Err(TorrentError::PeerMisbehaved),
            },
        }
    }
}

/// The id under which the peer takes metadata requests, read from the
/// payload of its extension handshake.
pub fn peer_metadata_id(payload: &[u8]) -> (res: Result<u8, TorrentError>)
    ensures
        res == offered_id(payload@),
{
    match ExtensionPayload::from_bytes(payload) {
        Err(e) => Err(e),
        Ok(handshake) => if handshake.message_id != 0 || handshake.payload.m.ut_metadata > 255 {
            Err(TorrentError::PeerMisbehaved)
        } else {
            Ok(handshake.payload.m.ut_metadata as u8)
        },
    }
}

/// The body of a request for piece `piece` of the metadata.
pub open spec fn metadata_request_body(piece: u32) -> BValue {
    BValue::Dict(
        seq![
            BEntry { key: key_msg_type(), value: BValue::Int(0) },
            BEntry { key: key_piece(), value: BValue::Int(piece as int) },
        ],
    )
}

/// The payload of the Extension message that asks the peer for piece `piece`
/// of the metadata: the peer's id for `ut_metadata`, then
/// `{ msg_type: 0, piece: piece }`.
pub fn metadata_request(extension_id: u8, piece: u32) -> (bytes: Vec<u8>)
    ensures
        bytes@ == seq![extension_id] + encode_value(metadata_request_body(piece)),
{
    let mut entries: Vec<DictEntry> = Vec::new();
    entries.push(DictEntry::new(msg_type_key().as_slice(), BencodeValue::Int(0)));
    entries.push(DictEntry::new(piece_key().as_slice(), BencodeValue::Int(piece as i64)));
    let body = BencodeValue::dict_of(entries);
    assert(body@->Dict_0 =~= metadata_request_body(piece)->Dict_0);
    let mut bytes: Vec<u8> = Vec::new();
    bytes.push(extension_id);
    append_bytes(&mut bytes, encode_bencoded_value(&body).as_slice());
    bytes
}

/// The first offset at or after `from` where two bytes `e` stand side by
/// side; `-1` where none do.
pub open spec fn first_ee(s: Seq<u8>, from: int) -> int
    decreases s.len() - from,
{
    if from < 0 || from + 1 >= s.len() {
        -1
    } else if s[from] == 0x65 && s[from + 1] == 0x65 {
        from
    } else {
        first_ee(s, from + 1)
    }
}

/// Splits a metadata reply into its header, which ends with the first `ee`,
/// and the raw bytes behind it.
pub fn split_header_and_data(message: &[u8]) -> (res: Option<(&[u8], &[u8])>)
    ensures
        match res {
            Some(parts) => 0 <= first_ee(message@, 0) && first_ee(message@, 0) + 2
                <= message.len() && parts.0@ == message@.subrange(0, first_ee(message@, 0) + 2)
                && parts.1@ == message@.subrange(
                first_ee(message@, 0) + 2,
                message.len() as int,
            ),
            None => first_ee(message@, 0) < 0,
        },
{
    if message.len() < 2 {
        return None;
    }
    let mut i: usize = 0;
    while i < message.len() - 1
        invariant
            message.len() >= 2,
            first_ee(message@, 0) == first_ee(message@, i as int),
        decreases message.len() - i,
    {
        if message[i] == 0x65 && message[i + 1] == 0x65 {
            let header = vstd::slice::slice_subrange(message, 0, i + 2);
            let data = vstd::slice::slice_subrange(message, i + 2, message.len());
            return Some((header, data));
        }
        i += 1;
    }
    None
}

/// A piece of metadata as a peer sent it.
#[derive(Debug)]
pub struct MetadataPiece {
    pub piece: u32,
    pub total_size: u32,
    pub data: Vec<u8>,
}

/// The piece index and the total size in the header of a data message:
/// `msg_type` is 1, and `piece` and `total_size` are numbers that fit in 32
/// bits.
pub open spec fn data_header(v: BValue) -> Option<(u32, u32)> {
    match (field(v, key_msg_type()), field(v, key_piece()), field(v, key_total_size())) {
        (Some(BValue::Int(kind)), Some(BValue::Int(piece)), Some(BValue::Int(total))) => if kind
            == 1 && 0 <= piece <= u32::MAX && 0 <= total <= u32::MAX {
            Some((piece as u32, total as u32))
        } else {
            None
        },
        _ => None,
    }
}

/// What the payload of an Extension message is, read as a data message under
/// `expected_id`: the header's piece index and total size and the bytes
/// behind the header; or nothing, where the payload has no `ee`, is for
/// another extension id, or its header is no bencode or no data header.
pub open spec fn metadata_reply(payload: Seq<u8>, expected_id: u8) -> Option<(u32, u32, Seq<u8>)> {
    let at = first_ee(payload, 0);
    if at < 0 || payload[0] != expected_id {
        None
    } else {
        match parse_value(payload.subrange(1, at + 2), 0) {
            Parse::Failed { failure } => None,
            Parse::Done { value, end } => match data_header(value) {
                Some((piece, total)) => Some(
                    (piece, total, payload.subrange(at + 2, payload.len() as int)),
                ),
                None => None,
            },
        }
    }
}

fn small_number(v: &BencodeValue, key: &[u8]) -> (res: Option<u32>)
    ensures
        match res {
            Some(n) => field(v@, key@) == Some(BValue::Int(n as int)),
            None => !(field(v@, key@) matches Some(BValue::Int(i)) && 0 <= i <= u32::MAX),
        },
{
    crate::torrent::number_field(v, key, 0)
}

/// Reads the payload of an Extension message as a piece of metadata sent
/// under `expected_id`.
pub fn parse_metadata_reply(
    payload: &[u8],
    expected_id: u8,
) -> (res: Result<MetadataPiece, TorrentError>)
    ensures
        match metadata_reply(payload@, expected_id) {
            Some((piece, total, data)) => res matches Ok(p) && p.piece == piece && p.total_size
                == total && p.data@ == data,
            None => res == Err::<MetadataPiece, TorrentError>(TorrentError::PeerMisbehaved),
        },
{
    let (header, data) = match split_header_and_data(payload) {
        None => {
            return Err(TorrentError::PeerMisbehaved);
        },
        Some(parts) => parts,
    };
    assert(header@[0] == payload@[0]);
    if header[0] != expected_id {
        return Err(TorrentError::PeerMisbehaved);
    }
    assert(header@.subrange(1, header.len() as int) =~= payload@.subrange(
        1,
        first_ee(payload@, 0) + 2,
    ));
    let value = match decode_bencoded_value(vstd::slice::slice_subrange(header, 1, header.len())) {
        Err(_) => {
            return Err(TorrentError::PeerMisbehaved);
        },
        Ok((value, _)) => value,
    };
    let kind = small_number(&value, msg_type_key().as_slice());
    let piece = small_number(&value, piece_key().as_slice());
    let total = small_number(&value, total_size_key().as_slice());
    match (kind, piece, total) {
        (Some(kind), Some(piece), Some(total_size)) => if kind == 1 {
            Ok(MetadataPiece { piece, total_size, data: copy_range(data, 0, data.len()) })
        } else {
            Err(TorrentError::PeerMisbehaved)
        },
        _ => Err(TorrentError::PeerMisbehaved),
    }
}

/// Checks the metadata that a peer sent against the info hash of the magnet
/// link, and reads it.
pub fn verify_metadata(raw: &[u8], info_hash: &[u8; 20]) -> (res: Result<Info, TorrentError>)
    ensures
        sha1_digest(raw@) != info_hash@ ==> res == Err::<Info, TorrentError>(
            TorrentError::MetadataCorrupt,
        ),
        sha1_digest(raw@) == info_hash@ ==> match parse_value(raw@, 0) {
            Parse::Failed { failure } => res == Err::<Info, TorrentError>(as_error(failure)),
            Parse::Done { value, end } => if describes_info(value) {
                res matches Ok(info) && info_from(info, value) && info.well_formed()
            } else {
                res == Err::<Info, TorrentError>(TorrentError::MalformedMetainfo)
            },
        },
{
    if !has_digest(raw, info_hash) {
        return Err(TorrentError::MetadataCorrupt);
    }
    Info::from_bytes(raw)
}


/// The metadata received so far, and its total size once a peer has said it.
#[derive(Debug)]
pub struct MetadataFetch {
    pub received: Vec<u8>,
    pub total_size: Option<u32>,
}

impl MetadataFetch {
    /// No more has been received than the total size allows, and nothing
    /// before the size is known.
    pub open spec fn well_formed(&self) -> bool {
        match self.total_size {
            Some(total) => self.received@.len() <= total,
            None => self.received@.len() == 0,
        }
    }

    /// All of the metadata is there.
    pub open spec fn complete(&self) -> bool {
        self.total_size matches Some(total) && self.received@.len() == total
    }

    /// The index of the piece that comes next.
    pub open spec fn wanted_piece(&self) -> int {
        self.received@.len() as int / (METADATA_PIECE_LEN as int)
    }

    /// `piece` is the piece that comes next: it has the wanted index, agrees
    /// on the total size, and holds 16 KiB or, where less is missing, all
    /// that is missing.
    pub open spec fn accepts(&self, piece: MetadataPiece) -> bool {
        let missing = piece.total_size - self.received@.len();
        &&& !self.complete()
        &&& self.received@.len() as int % (METADATA_PIECE_LEN as int) == 0
        &&& piece.piece == self.wanted_piece()
        &&& (self.total_size is None || self.total_size == Some(piece.total_size))
        &&& missing >= 0
        &&& piece.data@.len() == if missing < METADATA_PIECE_LEN {
            missing
        } else {
            METADATA_PIECE_LEN as int
        }
    }

    pub fn new() -> (fetch: Self)
        ensures
            fetch.well_formed(),
            fetch.received@.len() == 0,
            fetch.total_size is None,
    {
        MetadataFetch { received: Vec::new(), total_size: None }
    }

    /// Whether the fetch is as its own steps leave it.
    pub fn is_well_formed(&self) -> (ok: bool)
        ensures
            ok == self.well_formed(),
    {
        match self.total_size {
            Some(total) => self.received.len() <= total as usize,
            None => self.received.len() == 0,
        }
    }

    /// Whether all of the metadata is there.
    pub fn is_complete(&self) -> (done: bool)
        ensures
            done == self.complete(),
    {
        match self.total_size {
            Some(total) => self.received.len() == total as usize,
            None => false,
        }
    }

    /// The payload of the request to send next to a peer that takes metadata
    /// requests under `extension_id`; nothing once the metadata is complete.
    pub fn next_request(&self, extension_id: u8) -> (res: Option<Vec<u8>>)
        requires
            self.well_formed(),
        ensures
            self.complete() ==> res is None,
            !self.complete() ==> (res matches Some(bytes) && bytes@ == seq![extension_id]
                + encode_value(metadata_request_body(self.wanted_piece() as u32))),
    {
        if self.is_complete() {
            return None;
        }
        let piece = (self.received.len() / METADATA_PIECE_LEN) as u32;
        Some(metadata_request(extension_id, piece))
    }

    /// Takes a piece that a peer sent. Returns whether the metadata is now
    /// complete. A piece that is not the one that comes next is refused, and
    /// nothing changes.
    pub fn accept(&mut self, piece: MetadataPiece) -> (res: Result<bool, TorrentError>)
        requires
            old(self).well_formed(),
        ensures
            final(self).well_formed(),
            old(self).accepts(piece) ==> res == Ok::<bool, TorrentError>(final(self).complete())
                && final(self).received@ == old(self).received@ + piece.data@
                && final(self).total_size == Some(piece.total_size),
            !old(self).accepts(piece) ==> res == Err::<bool, TorrentError>(
                TorrentError::PeerMisbehaved,
            ) && *final(self) == *old(self),
    {
        if self.is_complete() {
            return Err(TorrentError::PeerMisbehaved);
        }
        let have = self.received.len();
        if have % METADATA_PIECE_LEN != 0 || piece.piece as usize != have / METADATA_PIECE_LEN {
            return Err(TorrentError::PeerMisbehaved);
        }
        match self.total_size {
            Some(total) => if total != piece.total_size {
                return Err(TorrentError::PeerMisbehaved);
            },
            None => {},
        }
        if (piece.total_size as usize) < have {
            return Err(TorrentError::PeerMisbehaved);
        }
        let missing = piece.total_size as usize - have;
        let wanted = if missing < METADATA_PIECE_LEN { missing } else { METADATA_PIECE_LEN };
        if piece.data.len() != wanted {
            return Err(TorrentError::PeerMisbehaved);
        }
        append_bytes(&mut self.received, piece.data.as_slice());
        self.total_size = Some(piece.total_size);
        Ok(self.is_complete())
    }

    /// Checks the complete metadata against the info hash and reads it.
    /// Metadata that is not complete is refused as corrupt.
    pub fn finish(&self, info_hash: &[u8; 20]) -> (res: Result<Info, TorrentError>)
        ensures
            !self.complete() || sha1_digest(self.received@) != info_hash@ ==> res == Err::<
                Info,
                TorrentError,
            >(TorrentError::MetadataCorrupt),
            self.complete() && sha1_digest(self.received@) == info_hash@ ==> match parse_value(
                self.received@,
                0,
            ) {
                Parse::Failed { failure } => res == Err::<Info, TorrentError>(as_error(failure)),
                Parse::Done { value, end } => if describes_info(value) {
                    res matches Ok(info) && info_from(info, value) && info.well_formed()
                } else {
                    res == Err::<Info, TorrentError>(TorrentError::MalformedMetainfo)
                },
            },
    {
        if !self.is_complete() {
            return Err(TorrentError::MetadataCorrupt);
        }
        verify_metadata(self.received.as_slice(), info_hash)
    }
}


/// What to do with a peer in the search for the metadata of a magnet link.
#[derive(Debug, Clone, Copy, PartialEq, Eq, Structural)]
pub enum MetadataStep {
    /// Go on with this peer.
    Continue,
    /// Leave this peer and try the next.
    NextPeer { reason: TorrentError },
    /// End the search.
    GiveUp { reason: TorrentError },
}

/// What comes next in the search for metadata, from where the session with
/// a peer stands and from what failed with that peer, if anything did.
///
/// - Metadata that does not have the info hash of the link ends the search:
///   it is not looked for elsewhere.
/// - Any other failure leaves the peer; the next one is tried.
/// - A peer whose handshake did not announce the extension protocol cannot
///   hand out metadata: it is left, as misbehaving.
/// - Else the search goes on with this peer.
pub open spec fn metadata_step_spec(session: SessionView, failure: Option<TorrentError>)
    -> MetadataStep {
    match failure {
        Some(reason) => if reason == TorrentError::MetadataCorrupt {
            MetadataStep::GiveUp { reason }
        } else {
            MetadataStep::NextPeer { reason }
        },
        None => if session.remote_id is Some && !session.remote_extensions {
            MetadataStep::NextPeer { reason: TorrentError::PeerMisbehaved }
        } else {
            MetadataStep::Continue
        },
    }
}

/// Decides what comes next in the search for metadata.
pub fn metadata_step(session: &PeerSession, failure: Option<TorrentError>) -> (step: MetadataStep)
    ensures
        step == metadata_step_spec(session@, failure),
{
    match failure {
        Some(reason) => match reason {
            TorrentError::MetadataCorrupt => MetadataStep::GiveUp { reason },
            _ => MetadataStep::NextPeer { reason },
        },
        None => if session.remote_id.is_some() && !session.remote_extensions {
            MetadataStep::NextPeer { reason: TorrentError::PeerMisbehaved }
        } else {
            MetadataStep::Continue
        },
    }
}

} // verus!
