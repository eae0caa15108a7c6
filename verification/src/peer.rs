//! A peer and the pieces it announces.

use vstd::prelude::*;
use crate::tracker::PeerEndpoint;

verus! {

/// The bit that stands for piece `i` in a bitfield: bit `7 - i % 8` of byte
/// `i / 8`, so that the high bit of the first byte is piece 0. A piece whose
/// byte the bitfield does not hold is not there.
pub open spec fn bit_at(bitfield: Seq<u8>, i: int) -> bool {
    0 <= i / 8 < bitfield.len() && (bitfield[i / 8] >> ((7 - i % 8) as u8)) & 1 == 1
}

/// Whether a bitfield for `piece_count` pieces says that piece `i` is there.
/// Bits from `piece_count` on stand for no piece.
pub open spec fn has_piece_spec(bitfield: Seq<u8>, piece_count: int, i: int) -> bool {
    0 <= i < piece_count && bit_at(bitfield, i)
}

/// A bitfield for `piece_count` pieces is as long as they need, and its
/// spare bits are zero.
pub open spec fn well_formed_bitfield(bitfield: Seq<u8>, piece_count: int) -> bool {
    &&& bitfield.len() == (piece_count + 7) / 8
    &&& forall|i: int| piece_count <= i < 8 * bitfield.len() ==> !#[trigger] bit_at(bitfield, i)
}

/// In a well-formed bitfield the plain bit lookup and the lookup that knows
/// the number of pieces agree on every index.
pub proof fn lemma_bitfield_lookup(bitfield: Seq<u8>, piece_count: int, i: int)
    requires
        piece_count >= 0,
        well_formed_bitfield(bitfield, piece_count),
        0 <= i,
    ensures
        bit_at(bitfield, i) == has_piece_spec(bitfield, piece_count, i),
{
    if i >= piece_count && i < 8 * bitfield.len() {
        assert(!bit_at(bitfield, i));
    }
}

/// Reads the bit that stands for piece `i`, spare or not.
fn bit_is_set(bitfield: &[u8], i: usize) -> (set: bool)
    ensures
        set == bit_at(bitfield@, i as int),
{
    let byte_index = i / 8;
    if byte_index >= bitfield.len() {
        return false;
    }
    let shift: u8 = (7 - i % 8) as u8;
    (bitfield[byte_index] >> shift) & 1 == 1
}

/// Whether a bitfield for `piece_count` pieces says that piece `i` is there.
pub fn has_piece(bitfield: &[u8], piece_count: usize, i: usize) -> (has: bool)
    ensures
        has == has_piece_spec(bitfield@, piece_count as int, i as int),
{
    i < piece_count && bit_is_set(bitfield, i)
}

/// Whether `bitfield` is a well-formed bitfield for `piece_count` pieces.
pub fn check_bitfield(bitfield: &[u8], piece_count: usize) -> (ok: bool)
    ensures
        ok == well_formed_bitfield(bitfield@, piece_count as int),
{
    let needed = piece_count / 8 + (if piece_count % 8 == 0 { 0usize } else { 1usize });
    if bitfield.len() != needed {
        return false;
    }
    if piece_count % 8 == 0 {
        return true;
    }
    // The last byte holds `spare` bits that stand for no piece: its lowest.
    let spare: u8 = (8 - piece_count % 8) as u8;
    let last = bitfield[needed - 1];
    let mut k: u8 = 0;
    while k < spare
        invariant
            k <= spare < 8,
            needed == bitfield.len(),
            needed >= 1,
            last == bitfield@[needed - 1],
            8 * needed - spare == piece_count,
            forall|j: int| 8 * needed - k <= j < 8 * needed ==> !#[trigger] bit_at(bitfield@, j),
        decreases spare - k,
    {
        let ghost i = 8 * needed - 1 - k;
        assert(i / 8 == needed - 1 && i % 8 == 7 - k);
        if (last >> k) & 1 == 1 {
            assert(bit_at(bitfield@, i));
            return false;
        }
        k += 1;
    }
    true
}

/// A peer that has been heard from: where it is and what it has.
#[derive(Debug, Clone)]
pub struct Peer {
    pub addr: PeerEndpoint,
    pub bitfield: Vec<u8>,
}

impl Peer {
    pub fn new(addr: PeerEndpoint, bitfield: Vec<u8>) -> (peer: Self)
        ensures
            peer.addr == addr,
            peer.bitfield == bitfield,
    {
        Self { addr, bitfield }
    }

    /// Whether the peer has piece `piece_index` of a torrent of
    /// `piece_count` pieces. A piece from `piece_count` on is never there,
    /// whatever the spare bits of the bitfield hold, and neither is a piece
    /// whose byte the bitfield lacks.
    pub fn has_index(&self, piece_count: usize, piece_index: usize) -> (present: bool)
        ensures
            present == has_piece_spec(self.bitfield@, piece_count as int, piece_index as int),
            piece_index >= piece_count ==> !present,
            piece_index / 8 >= self.bitfield@.len() ==> !present,
    {
        has_piece(self.bitfield.as_slice(), piece_count, piece_index)
    }
}

} // verus!
