//! A piece as the download engine sees it.

use vstd::prelude::*;

verus! {

/// One content-addressed unit of the file: its position, its SHA-1 digest and
/// its length in bytes.
#[derive(Debug, Clone, Copy)]
pub struct Piece {
    pub index: usize,
    pub hash: [u8; 20],
    pub length: u32,
}

impl Piece {
    pub fn new(index: usize, hash: [u8; 20], length: u32) -> (piece: Self)
        ensures
            piece.index == index,
            piece.hash == hash,
            piece.length == length,
    {
        Self { index, hash, length }
    }
}

} // verus!
