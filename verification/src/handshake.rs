//! The 68-byte handshake that opens every peer connection.

use vstd::prelude::*;
use rand::Rng;
use crate::bytes::{append_bytes, array_from};
use crate::errors::TorrentError;

verus! {

/// The length of a handshake frame.
pub const HANDSHAKE_LEN: usize = 68;

/// The bit of reserved byte 5 that announces the extension protocol.
pub const EXTENSION_BIT: u8 = 0x10;

/// The name that follows the length byte: `BitTorrent protocol`.
pub open spec fn protocol_name() -> Seq<u8> {
    seq![
        0x42u8, 0x69, 0x74, 0x54, 0x6f, 0x72, 0x72, 0x65, 0x6e, 0x74, 0x20, 0x70, 0x72, 0x6f, 0x74,
        0x6f, 0x63, 0x6f, 0x6c,
    ]
}

/// The reserved bytes that this client sends: all zero, but for the
/// extension bit where extensions are wanted.
pub open spec fn reserved_bytes(extensions: bool) -> Seq<u8> {
    seq![0u8, 0, 0, 0, 0, if extensions { EXTENSION_BIT } else { 0u8 }, 0, 0]
}

/// A handshake, as sent or as received.
#[derive(Debug, Clone, Copy)]
pub struct HandshakeMessage {
    pub length: u8,
    pub protocol: [u8; 19],
    pub reserved: [u8; 8],
    pub info_hash: [u8; 20],
    pub peer_id: [u8; 20],
}

/// One decimal digit that `rand`'s thread-local generator draws with
/// `random_range(0..10)`. The contract states only the range that the call
/// was given; two calls may differ.
#[verifier::external_body]
fn random_digit() -> (d: u8)
    ensures
        d < 10,
{
    rand::rng().random_range(0..10)
}

/// A fresh peer id: twenty ASCII decimal digits drawn at random.
pub fn generate_peer_id() -> (id: [u8; 20])
    ensures
        forall|i: int| 0 <= i < 20 ==> 0x30 <= #[trigger] id@[i] <= 0x39,
{
    let mut id = [0x30u8;20];
    let mut i: usize = 0;
    while i < 20
        invariant
            i <= 20,
            forall|j: int| 0 <= j < 20 ==> 0x30 <= #[trigger] id@[j] <= 0x39,
        decreases 20 - i,
    {
        let d = random_digit();
        id[i] = 0x30 + d;
        i += 1;
    }
    id
}

impl HandshakeMessage {
    /// The 68 bytes that the handshake holds, field after field. For a
    /// handshake that was received these are the bytes the peer sent.
    pub open spec fn fields(&self) -> Seq<u8> {
        seq![self.length] + self.protocol@ + self.reserved@ + self.info_hash@ + self.peer_id@
    }

    /// The frame as it goes over the wire: the length byte, the name
    /// `BitTorrent protocol` whatever the protocol field holds, the reserved
    /// bytes, the info hash and the peer id.
    pub open spec fn frame(&self) -> Seq<u8> {
        seq![self.length] + protocol_name() + self.reserved@ + self.info_hash@ + self.peer_id@
    }

    /// The handshake this client sends, but for the peer id.
    pub open spec fn is_ours(&self, info_hash: [u8; 20], is_magnet: bool) -> bool {
        &&& self.length == 19
        &&& self.protocol@ == protocol_name()
        &&& self.reserved@ == reserved_bytes(is_magnet)
        &&& self.info_hash == info_hash
    }

    /// The handshake for `info_hash` under a freshly drawn peer id. With
    /// `is_magnet` the extension bit is set.
    pub fn new(info_hash: [u8; 20], is_magnet: bool) -> (m: Self)
        ensures
            m.is_ours(info_hash, is_magnet),
            forall|i: int| 0 <= i < 20 ==> 0x30 <= #[trigger] m.peer_id@[i] <= 0x39,
    {
        Self::with_peer_id(info_hash, generate_peer_id(), is_magnet)
    }

    /// The handshake for `info_hash` under the given peer id.
    pub fn with_peer_id(info_hash: [u8; 20], peer_id: [u8; 20], is_magnet: bool) -> (m: Self)
        ensures
            m.is_ours(info_hash, is_magnet),
            m.peer_id == peer_id,
    {
        let mut reserved = [0u8;8];
        if is_magnet {
            reserved[5] = EXTENSION_BIT;
        }
        let protocol: [u8; 19] = [
            0x42, 0x69, 0x74, 0x54, 0x6f, 0x72, 0x72, 0x65, 0x6e, 0x74, 0x20, 0x70, 0x72, 0x6f,
            0x74, 0x6f, 0x63, 0x6f, 0x6c,
        ];
        assert(protocol@ =~= protocol_name());
        assert(reserved@ =~= reserved_bytes(is_magnet));
        HandshakeMessage { length: 19, protocol, reserved, info_hash, peer_id }
    }

    /// Reads a handshake from the first 68 bytes of `bytes`. Every field is
    /// kept as the peer sent it.
    pub fn from_bytes(bytes: &[u8]) -> (res: Result<Self, TorrentError>)
        ensures
            bytes.len() < HANDSHAKE_LEN ==> res == Err::<Self, TorrentError>(
                TorrentError::ShortRead,
            ),
            bytes.len() >= HANDSHAKE_LEN ==> res is Ok && res->Ok_0.fields() == bytes@.subrange(
                0,
                HANDSHAKE_LEN as int,
            ),
    {
        if bytes.len() < HANDSHAKE_LEN {
            return Err(TorrentError::ShortRead);
        }
        let m = HandshakeMessage {
            length: bytes[0],
            protocol: array_from::<19>(bytes, 1),
            reserved: array_from::<8>(bytes, 20),
            info_hash: array_from::<20>(bytes, 28),
            peer_id: array_from::<20>(bytes, 48),
        };
        assert(m.fields() =~= bytes@.subrange(0, HANDSHAKE_LEN as int));
        Ok(m)
    }

    /// The 68 bytes of the frame. The name written is always
    /// `BitTorrent protocol`.
    pub fn to_bytes(&self) -> (bytes: [u8; 68])
        ensures
            bytes@ == self.frame(),
    {
        let name: [u8; 19] = [
            0x42, 0x69, 0x74, 0x54, 0x6f, 0x72, 0x72, 0x65, 0x6e, 0x74, 0x20, 0x70, 0x72, 0x6f,
            0x74, 0x6f, 0x63, 0x6f, 0x6c,
        ];
        assert(name@ =~= protocol_name());
        let mut out: Vec<u8> = Vec::new();
        out.push(self.length);
        append_bytes(&mut out, name.as_slice());
        append_bytes(&mut out, self.reserved.as_slice());
        append_bytes(&mut out, self.info_hash.as_slice());
        append_bytes(&mut out, self.peer_id.as_slice());
        assert(out@ =~= self.frame());
        array_from::<68>(out.as_slice(), 0)
    }

    /// Whether the peer announced the extension protocol.
    pub fn supports_extensions(&self) -> (yes: bool)
        ensures
            yes == (self.reserved@[5] & EXTENSION_BIT == EXTENSION_BIT),
    {
        self.reserved[5] & EXTENSION_BIT == EXTENSION_BIT
    }

    /// Checks a peer's answer against the torrent that was asked for: the
    /// info hashes must be equal. The peer id is not checked.
    pub fn accept(&self, info_hash: &[u8; 20]) -> (res: Result<(), TorrentError>)
        ensures
            self.info_hash@ == info_hash@ ==> res is Ok,
            self.info_hash@ != info_hash@ ==> res == Err::<(), TorrentError>(
                TorrentError::HandshakeRejected,
            ),
    {
        if crate::bytes::bytes_eq(self.info_hash.as_slice(), info_hash.as_slice()) {
            Ok(())
        } else {
            Err(TorrentError::HandshakeRejected)
        }
    }
}


/// The fields say everything about a handshake: two handshakes that hold
/// the same 68 bytes are the same. And a handshake that holds the name
/// `BitTorrent protocol` is written as the bytes it holds, so that reading a
/// frame with that name and writing it again gives the frame back.
pub proof fn lemma_frame_says_all(a: HandshakeMessage, b: HandshakeMessage)
    ensures
        a.frame().len() == HANDSHAKE_LEN,
        a.fields().len() == HANDSHAKE_LEN,
        a.protocol@ == protocol_name() ==> a.frame() == a.fields(),
        a.fields() == b.fields() ==> a == b,
{
    if a.fields() == b.fields() {
        let f = a.fields();
        let g = b.fields();
        assert(a.length == b.length) by {
            assert(f[0] == g[0]);
        }
        assert(a.protocol =~= b.protocol) by {
            assert forall|i: int| 0 <= i < 19 implies a.protocol[i] == b.protocol[i] by {
                assert(f[1 + i] == g[1 + i]);
            }
        }
        assert(a.reserved =~= b.reserved) by {
            assert forall|i: int| 0 <= i < 8 implies a.reserved[i] == b.reserved[i] by {
                assert(f[20 + i] == g[20 + i]);
            }
        }
        assert(a.info_hash =~= b.info_hash) by {
            assert forall|i: int| 0 <= i < 20 implies a.info_hash[i] == b.info_hash[i] by {
                assert(f[28 + i] == g[28 + i]);
            }
        }
        assert(a.peer_id =~= b.peer_id) by {
            assert forall|i: int| 0 <= i < 20 implies a.peer_id[i] == b.peer_id[i] by {
                assert(f[48 + i] == g[48 + i]);
            }
        }
    }
}

} // verus!
