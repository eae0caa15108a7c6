//! TorrentError kinds surfaced by the library.

use vstd::prelude::*;

verus! {

/// Why a bencoded input was rejected.
#[derive(Debug, Clone, Copy, PartialEq, Eq, Structural)]
pub enum BencodeReason {
    /// The input ended in the middle of a value.
    UnexpectedEnd,
    /// A byte that cannot start a value, or a dictionary key, stands at the offset.
    UnexpectedByte,
    /// A length prefix is not followed by `:`.
    MissingColon,
    /// An integer has no digits or is not closed by `e`.
    InvalidInteger,
    /// A number has a leading zero, or is `-0`.
    LeadingZero,
    /// An integer does not fit in 64 signed bits.
    IntegerOverflow,
}

/// Every failure the library reports.
#[derive(Debug, Clone, Copy, PartialEq, Eq, Structural)]
pub enum TorrentError {
    MalformedBencode { offset: usize, reason: BencodeReason },
    MalformedMetainfo,
    MagnetMalformed,
    TrackerUnreachable,
    TrackerMalformed,
    ConnectTimeout,
    HandshakeRejected,
    PeerMisbehaved,
    ShortRead,
    UnknownMessageId { id: u8 },
    ReadIo,
    WriteIo,
    PieceHashMismatch,
    PieceUnrecoverable { index: usize },
    MetadataCorrupt,
    FileWrite,
}

} // verus!
