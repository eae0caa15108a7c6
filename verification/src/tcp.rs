//! Framing on a byte stream: what has been received is put into a buffer,
//! and handshakes and messages are taken out of it as they become whole.
//! The bytes to send are made here too. Reading and writing the socket is
//! the caller's part.

use vstd::prelude::*;
use crate::bytes::{append_bytes, copy_range};
use crate::errors::TorrentError;
use crate::extension::{extension_handshake_payload, OUR_METADATA_ID};
use crate::bencode::grammar::encode_value;
use crate::handshake::{HandshakeMessage, HANDSHAKE_LEN};
use crate::peer_messages::{
    announced_length, extension_handshake, frame_of, id_kind, read_frame, Frame, MessageId,
    PeerMessage,
};

verus! {

/// The receiving side of a connection.
#[derive(Debug)]
pub struct TcpManager {
    /// What has been received and not yet taken out.
    pub incoming: Vec<u8>,
}

/// What is left of a buffer once the keep-alives at its start are dropped.
pub open spec fn after_keep_alives(buffer: Seq<u8>) -> Seq<u8>
    decreases buffer.len(),
{
    if buffer.len() >= 4 && announced_length(buffer) == 0 {
        after_keep_alives(buffer.subrange(4, buffer.len() as int))
    } else {
        buffer
    }
}

/// A whole frame stands at the start of `buffer`.
pub open spec fn holds_frame(buffer: Seq<u8>) -> bool {
    buffer.len() >= 4 && buffer.len() >= 4 + announced_length(buffer)
}

/// The buffer ends inside a frame: once the keep-alives at its start are
/// dropped, bytes remain and are no whole frame.
pub open spec fn cut_short(buffer: Seq<u8>) -> bool {
    after_keep_alives(buffer).len() > 0 && !holds_frame(after_keep_alives(buffer))
}

impl TcpManager {
    pub fn new() -> (manager: Self)
        ensures
            manager.incoming@.len() == 0,
    {
        TcpManager { incoming: Vec::new() }
    }

    /// Puts bytes that were received behind those already there.
    pub fn receive(&mut self, bytes: &[u8])
        ensures
            final(self).incoming@ == old(self).incoming@ + bytes@,
    {
        append_bytes(&mut self.incoming, bytes);
    }

    fn consume(&mut self, count: usize)
        requires
            count <= old(self).incoming@.len(),
        ensures
            final(self).incoming@ == old(self).incoming@.subrange(
                count as int,
                old(self).incoming@.len() as int,
            ),
    {
        let rest = copy_range(self.incoming.as_slice(), count, self.incoming.len());
        self.incoming = rest;
    }

    /// The bytes of our handshake, to be written first.
    pub fn handshake(&self, handshake_message: HandshakeMessage) -> (bytes: [u8; 68])
        ensures
            bytes@ == handshake_message.frame(),
    {
        handshake_message.to_bytes()
    }

    /// Takes the peer's handshake out of the buffer, once all of its 68 bytes
    /// are there.
    pub fn read_handshake(&mut self) -> (res: Option<HandshakeMessage>)
        ensures
            if old(self).incoming@.len() < 68 {
                &&& res is None
                &&& final(self).incoming@ == old(self).incoming@
            } else {
                &&& res is Some
                &&& res->Some_0.fields() == old(self).incoming@.subrange(0, 68)
                &&& final(self).incoming@ == old(self).incoming@.subrange(
                    68,
                    old(self).incoming@.len() as int,
                )
            },
    {
        match HandshakeMessage::from_bytes(self.incoming.as_slice()) {
            Err(_) => None,
            Ok(message) => {
                self.consume(HANDSHAKE_LEN);
                Some(message)
            },
        }
    }

    /// Takes the next message out of the buffer, once all of it is there.
    /// Keep-alives before it are dropped. A message of a kind that is not
    /// known is an error, and stays.
    pub fn read_message(&mut self) -> (res: Result<Option<(MessageId, Vec<u8>)>, TorrentError>)
        ensures
            ({
                let buffer = after_keep_alives(old(self).incoming@);
                let length = announced_length(buffer);
                if !holds_frame(buffer) {
                    &&& res == Ok::<Option<(MessageId, Vec<u8>)>, TorrentError>(None)
                    &&& final(self).incoming@ == buffer
                } else {
                    match id_kind(buffer[4]) {
                        Some(kind) => {
                            &&& res matches Ok(Some(pair))
                            &&& pair.0 == kind
                            &&& pair.1@ == buffer.subrange(5, 4 + length)
                            &&& final(self).incoming@ == buffer.subrange(
                                4 + length,
                                buffer.len() as int,
                            )
                        },
                        None => {
                            &&& res == Err::<Option<(MessageId, Vec<u8>)>, TorrentError>(
                                TorrentError::UnknownMessageId { id: buffer[4] },
                            )
                            &&& final(self).incoming@ == buffer
                        },
                    }
                }
            }),
    {
        loop
            invariant
                after_keep_alives(self.incoming@) == after_keep_alives(old(self).incoming@),
            decreases self.incoming@.len(),
        {
            match read_frame(self.incoming.as_slice()) {
                Err(e) => {
                    return Err(e);
                },
                Ok((Frame::Incomplete, _)) => {
                    return Ok(None);
                },
                Ok((Frame::KeepAlive, _)) => {
                    self.consume(4);
                },
                Ok((Frame::Message { id, payload }, used)) => {
                    self.consume(used);
                    return Ok(Some((id, payload)));
                },
            }
        }
    }

    /// What it means that the stream has ended. Where the buffer holds the
    /// beginning of something that never became whole, the read was short:
    /// part of a handshake while the handshake is awaited, part of a frame
    /// afterwards. Else the peer closed the connection between frames.
    pub fn end_of_stream(&self, awaiting_handshake: bool) -> (error: TorrentError)
        ensures
            error == if awaiting_handshake {
                if 0 < self.incoming@.len() < 68 {
                    TorrentError::ShortRead
                } else {
                    TorrentError::ReadIo
                }
            } else if cut_short(self.incoming@) {
                TorrentError::ShortRead
            } else {
                TorrentError::ReadIo
            },
    {
        if awaiting_handshake {
            return if 0 < self.incoming.len() && self.incoming.len() < HANDSHAKE_LEN {
                TorrentError::ShortRead
            } else {
                TorrentError::ReadIo
            };
        }
        let total = self.incoming.len();
        let mut pos: usize = 0;
        assert(self.incoming@.subrange(0, total as int) =~= self.incoming@);
        loop
            invariant
                !awaiting_handshake,
                pos <= total,
                total == self.incoming@.len(),
                after_keep_alives(self.incoming@) == after_keep_alives(
                    self.incoming@.subrange(pos as int, total as int),
                ),
            decreases total - pos,
        {
            let rest = vstd::slice::slice_subrange(self.incoming.as_slice(), pos, total);
            assert(rest@.len() >= 4 && announced_length(rest@) == 0 || after_keep_alives(rest@)
                == rest@);
            match read_frame(rest) {
                Ok((Frame::KeepAlive, _)) => {
                    assert(rest@.subrange(4, rest@.len() as int) =~= self.incoming@.subrange(
                        pos + 4,
                        total as int,
                    ));
                    pos += 4;
                },
                Ok((Frame::Incomplete, _)) => {
                    return if rest.len() > 0 {
                        TorrentError::ShortRead
                    } else {
                        TorrentError::ReadIo
                    };
                },
                _ => {
                    return TorrentError::ReadIo;
                },
            }
        }
    }

    /// The bytes of a message, to be written.
    pub fn send_message(&self, message_id: MessageId, payload: Vec<u8>) -> (bytes: Vec<u8>)
        requires
            1 + payload.len() <= u32::MAX,
        ensures
            bytes@ == frame_of(message_id.wire_id(), payload@),
    {
        PeerMessage::new(message_id, payload).to_bytes()
    }

    /// The bytes of the message that opens the extension protocol.
    pub fn extension_handshake(&self) -> (bytes: Vec<u8>)
        ensures
            bytes@ == frame_of(
                MessageId::Extension.wire_id(),
                seq![0u8] + encode_value(extension_handshake(OUR_METADATA_ID as u32)),
            ),
    {
        self.send_message(MessageId::Extension, extension_handshake_payload())
    }
}

/// A frame that was written is read back: the message written stands at the
/// start of the buffer, with its kind and its payload, and takes exactly its
/// own bytes.
pub proof fn lemma_frame_roundtrip(id: MessageId, payload: Seq<u8>, rest: Seq<u8>)
    requires
        1 + payload.len() <= u32::MAX,
    ensures
        ({
            let buffer = frame_of(id.wire_id(), payload) + rest;
            &&& announced_length(buffer) == 1 + payload.len()
            &&& holds_frame(buffer)
            &&& after_keep_alives(buffer) == buffer
            &&& id_kind(buffer[4]) == Some(id)
            &&& buffer.subrange(5, 4 + announced_length(buffer)) == payload
            &&& buffer.subrange(4 + announced_length(buffer), buffer.len() as int) == rest
        }),
{
    let buffer = frame_of(id.wire_id(), payload) + rest;
    let total = (1 + payload.len()) as u32;
    crate::bytes::lemma_be32_roundtrip(total, Seq::empty());
    assert(buffer.subrange(0, 4) =~= crate::bytes::be32(total));
    assert(buffer.subrange(5, 4 + announced_length(buffer)) =~= payload);
    assert(buffer.subrange(4 + announced_length(buffer), buffer.len() as int) =~= rest);
}

} // verus!
