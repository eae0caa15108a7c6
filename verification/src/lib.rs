//! A leeching BitTorrent client library: the bencode codec, metainfo and
//! info-hash handling, tracker and magnet parsing, peer wire framing, the
//! per-peer session state machine and the piece download engine.
//!
//! Everything here is plain computation on bytes and values; sockets, HTTP and
//! files live with the caller, which feeds events in and carries actions out.

pub mod bencode;
pub mod bytes;
pub mod client;
pub mod digest;
pub mod errors;
pub mod extension;
pub mod handler;
pub mod handshake;
pub mod magnet;
pub mod peer;
pub mod peer_messages;
pub mod percent;
pub mod pieces;
pub mod session;
pub mod tcp;
pub mod text;
pub mod torrent;
pub mod tracker;
