//! The session with one peer, as a state machine: the caller owns the
//! connection, hands in what happened, and carries out the action that comes
//! back.
//!
//! A session asks for one block at a time. The states it passes through:
//!
//! `Connecting -> HandshakeSent -> HandshakeAcked -> [BitfieldReceived ->]
//! InterestedSent -> Ready <-> AwaitingBlock -> .. -> Closed`
//!
//! `BitfieldReceived` is where a session that wants extensions waits for the
//! peer's extension handshake.

use vstd::prelude::*;
use crate::bytes::{append_bytes, bytes_eq};
use crate::digest::{has_digest, sha1_digest};
use crate::errors::TorrentError;
use crate::extension::{extension_handshake_payload, offered_id, peer_metadata_id, OUR_METADATA_ID};
use crate::handshake::HandshakeMessage;
use crate::bencode::grammar::encode_value;
use crate::peer_messages::{
    extension_handshake, frame_of, MessageId, PiecePayload, RequestPayload,
    BLOCK_SIZE,
};
use crate::bytes::from_be32;
use crate::pieces::Piece;

verus! {

/// Where a session stands.
#[derive(Debug, Clone, Copy, PartialEq, Eq, Structural)]
pub enum SessionState {
    Connecting,
    HandshakeSent,
    HandshakeAcked,
    BitfieldReceived,
    InterestedSent,
    Ready,
    AwaitingBlock,
    Closed,
}

/// What happened on the connection, or what the engine asks for.
#[derive(Debug)]
pub enum Event {
    /// The connection stands.
    Connected,
    /// The peer's handshake was read.
    Handshake(HandshakeMessage),
    /// A frame of length zero was read.
    KeepAlive,
    /// A message was read.
    Message { id: MessageId, payload: Vec<u8> },
    /// The engine wants this piece.
    Download(Piece),
    /// The engine has no more work for this session.
    Stop,
    /// Reading or writing failed, or took too long.
    Failed(TorrentError),
}

/// What the caller is to do next.
#[derive(Debug)]
pub enum Action {
    /// Write these bytes, then read on.
    Send(Vec<u8>),
    /// Read on.
    Wait,
    /// The session takes no piece now; ask again when it is ready.
    Rejected,
    /// The piece is complete and has the digest it should have.
    PieceDone { index: usize, data: Vec<u8> },
    /// The piece is complete and has another digest than it should have.
    PieceFailed { index: usize },
    /// Write `farewell`, where it is not empty, and close the connection.
    Close { farewell: Vec<u8>, reason: Option<TorrentError> },
}

/// The value of an event.
#[verifier::ext_equal]
pub enum EventView {
    Connected,
    Handshake(HandshakeMessage),
    KeepAlive,
    Message { id: MessageId, payload: Seq<u8> },
    Download(Piece),
    Stop,
    Failed(TorrentError),
}

/// The value of an action.
#[verifier::ext_equal]
pub enum ActionView {
    Send(Seq<u8>),
    Wait,
    Rejected,
    PieceDone { index: usize, data: Seq<u8> },
    PieceFailed { index: usize },
    Close { farewell: Seq<u8>, reason: Option<TorrentError> },
}

impl View for Event {
    type V = EventView;

    open spec fn view(&self) -> EventView {
        match self {
            Event::Connected => EventView::Connected,
            Event::Handshake(m) => EventView::Handshake(*m),
            Event::KeepAlive => EventView::KeepAlive,
            Event::Message { id, payload } => EventView::Message { id: *id, payload: payload@ },
            Event::Download(piece) => EventView::Download(*piece),
            Event::Stop => EventView::Stop,
            Event::Failed(e) => EventView::Failed(*e),
        }
    }
}

impl View for Action {
    type V = ActionView;

    open spec fn view(&self) -> ActionView {
        match self {
            Action::Send(bytes) => ActionView::Send(bytes@),
            Action::Wait => ActionView::Wait,
            Action::Rejected => ActionView::Rejected,
            Action::PieceDone { index, data } => ActionView::PieceDone {
                index: *index,
                data: data@,
            },
            Action::PieceFailed { index } => ActionView::PieceFailed { index: *index },
            Action::Close { farewell, reason } => ActionView::Close {
                farewell: farewell@,
                reason: *reason,
            },
        }
    }
}

/// The session with one peer.
#[derive(Debug)]
pub struct PeerSession {
    pub state: SessionState,
    /// The torrent this session is about.
    pub info_hash: [u8; 20],
    /// The id this client goes by.
    pub peer_id: [u8; 20],
    /// Whether this client wants the extension protocol.
    pub use_extensions: bool,
    /// The id the peer goes by, once its handshake is read.
    pub remote_id: Option<[u8; 20]>,
    /// Whether the peer announced the extension protocol.
    pub remote_extensions: bool,
    /// The id under which the peer takes metadata requests.
    pub extension_id: Option<u8>,
    /// Whether the peer lets this client ask for blocks.
    pub unchoke_received: bool,
    pub bitfield: Vec<u8>,
    /// The piece being fetched.
    pub piece: Option<Piece>,
    /// The blocks of that piece received so far, one after the other.
    pub buffer: Vec<u8>,
    /// The request that awaits its block.
    pub outstanding: Option<RequestPayload>,
}

/// The value of a session.
#[verifier::ext_equal]
pub struct SessionView {
    pub state: SessionState,
    pub info_hash: [u8; 20],
    pub peer_id: [u8; 20],
    pub use_extensions: bool,
    pub remote_id: Option<[u8; 20]>,
    pub remote_extensions: bool,
    pub extension_id: Option<u8>,
    pub unchoke_received: bool,
    pub bitfield: Seq<u8>,
    pub piece: Option<Piece>,
    pub buffer: Seq<u8>,
    pub outstanding: Option<RequestPayload>,
}

impl View for PeerSession {
    type V = SessionView;

    open spec fn view(&self) -> SessionView {
        SessionView {
            state: self.state,
            info_hash: self.info_hash,
            peer_id: self.peer_id,
            use_extensions: self.use_extensions,
            remote_id: self.remote_id,
            remote_extensions: self.remote_extensions,
            extension_id: self.extension_id,
            unchoke_received: self.unchoke_received,
            bitfield: self.bitfield@,
            piece: self.piece,
            buffer: self.buffer@,
            outstanding: self.outstanding,
        }
    }
}

/// The length of the block to ask for at offset `begin` of a piece of
/// `length` bytes: 16 KiB, or what is left where that is less.
pub open spec fn block_length(length: u32, begin: int) -> u32 {
    if length - begin < BLOCK_SIZE {
        (length - begin) as u32
    } else {
        BLOCK_SIZE
    }
}

/// The request for the block at offset `begin` of `piece`.
pub open spec fn request_at(piece: Piece, begin: int) -> RequestPayload {
    RequestPayload {
        index: piece.index as u32,
        begin: begin as u32,
        length: block_length(piece.length, begin),
    }
}

/// A piece that a session can fetch: it is not empty and its index fits in
/// the 32 bits of a request.
pub open spec fn fetchable(piece: Piece) -> bool {
    piece.length > 0 && piece.index <= u32::MAX
}

impl SessionView {
    /// What holds of a session at all times.
    ///
    /// - A request is outstanding exactly while a block is awaited; it asks
    ///   for the block that comes next in the buffer, and the peer has
    ///   unchoked this client.
    /// - The buffer holds less than the piece being fetched, and nothing
    ///   where no piece is.
    /// - A session that is ready has been unchoked and fetches nothing.
    pub open spec fn well_formed(self) -> bool {
        &&& self.outstanding is Some <==> self.state == SessionState::AwaitingBlock
        &&& self.state == SessionState::AwaitingBlock ==> self.unchoke_received && self.piece
            is Some && self.outstanding == Some(
            request_at(self.piece->Some_0, self.buffer.len() as int),
        )
        &&& self.piece matches Some(piece) ==> fetchable(piece) && self.buffer.len() < piece.length
        &&& self.piece is None ==> self.buffer.len() == 0
        &&& self.state == SessionState::Ready ==> self.unchoke_received && self.piece is None
        &&& self.piece is Some ==> self.state == SessionState::AwaitingBlock || self.state
            == SessionState::InterestedSent || self.state == SessionState::Closed
    }

    /// The same session, closed: no request is out any more.
    pub open spec fn closed(self) -> SessionView {
        SessionView { state: SessionState::Closed, outstanding: None, ..self }
    }
}

/// Closing without a word.
pub open spec fn close(s: SessionView, reason: Option<TorrentError>) -> (SessionView, ActionView) {
    (s.closed(), ActionView::Close { farewell: Seq::empty(), reason })
}

/// Sending a message of kind `id`.
pub open spec fn send(id: MessageId, payload: Seq<u8>) -> ActionView {
    ActionView::Send(frame_of(id.wire_id(), payload))
}

/// Asking for the block that comes next in the buffer.
pub open spec fn ask_next(s: SessionView) -> (SessionView, ActionView) {
    let request = request_at(s.piece->Some_0, s.buffer.len() as int);
    (
        SessionView { state: SessionState::AwaitingBlock, outstanding: Some(request), ..s },
        send(MessageId::Request, request.wire()),
    )
}

/// What the peer's handshake leads to: the session goes on where the info
/// hash is this torrent's, and closes where it is not.
pub open spec fn on_handshake(s: SessionView, m: HandshakeMessage) -> (SessionView, ActionView) {
    if m.info_hash@ == s.info_hash@ {
        (
            SessionView {
                state: SessionState::HandshakeAcked,
                remote_id: Some(m.peer_id),
                remote_extensions: m.reserved@[5] & 0x10 == 0x10,
                ..s
            },
            ActionView::Wait,
        )
    } else {
        close(s, Some(TorrentError::HandshakeRejected))
    }
}

/// What the first message after the handshake leads to. It must be the
/// bitfield. Where both sides want extensions the extension handshake goes
/// out next, else Interested.
pub open spec fn on_first_message(s: SessionView, id: MessageId, payload: Seq<u8>) -> (
    SessionView,
    ActionView,
) {
    if id != MessageId::Bitfield {
        close(s, Some(TorrentError::PeerMisbehaved))
    } else if s.use_extensions && s.remote_extensions {
        (
            SessionView { state: SessionState::BitfieldReceived, bitfield: payload, ..s },
            send(
                MessageId::Extension,
                seq![0u8] + encode_value(extension_handshake(OUR_METADATA_ID as u32)),
            ),
        )
    } else {
        (
            SessionView { state: SessionState::InterestedSent, bitfield: payload, ..s },
            send(MessageId::Interested, Seq::empty()),
        )
    }
}

/// What a message leads to while the peer's extension handshake is awaited:
/// the handshake gives the peer's id for metadata requests, and Interested
/// goes out; other messages are passed over.
pub open spec fn on_extension_reply(s: SessionView, id: MessageId, payload: Seq<u8>) -> (
    SessionView,
    ActionView,
) {
    if id != MessageId::Extension {
        (s, ActionView::Wait)
    } else {
        match offered_id(payload) {
            Ok(extension_id) => (
                SessionView {
                    state: SessionState::InterestedSent,
                    extension_id: Some(extension_id),
                    ..s
                },
                send(MessageId::Interested, Seq::empty()),
            ),
            Err(e) => close(s, Some(e)),
        }
    }
}

/// What a message leads to while Unchoke is awaited: Unchoke makes the
/// session ready, or has it ask on for the piece that a choke interrupted;
/// everything else is passed over.
pub open spec fn on_choked_message(s: SessionView, id: MessageId) -> (SessionView, ActionView) {
    if id == MessageId::Unchoke {
        if s.piece is Some {
            ask_next(SessionView { unchoke_received: true, ..s })
        } else {
            (
                SessionView { state: SessionState::Ready, unchoke_received: true, ..s },
                ActionView::Wait,
            )
        }
    } else {
        (s, ActionView::Wait)
    }
}

/// What a choke leads to, in a session that was unchoked: the request for a
/// block, if one is out, is given up, and Interested goes out again.
pub open spec fn on_choke(s: SessionView) -> (SessionView, ActionView) {
    (
        SessionView {
            state: SessionState::InterestedSent,
            unchoke_received: false,
            outstanding: None,
            ..s
        },
        send(MessageId::Interested, Seq::empty()),
    )
}

/// The block that a Piece message carries, where it is the block that was
/// asked for.
pub open spec fn awaited_block(request: RequestPayload, payload: Seq<u8>) -> Option<Seq<u8>> {
    if payload.len() >= 8 && from_be32(payload.subrange(0, 4)) == request.index && from_be32(
        payload.subrange(4, 8),
    ) == request.begin && payload.len() - 8 == request.length {
        Some(payload.subrange(8, payload.len() as int))
    } else {
        None
    }
}

/// What a Piece message leads to while a block is awaited. A block other
/// than the one asked for, and so any block outside the piece, closes the
/// session. The block asked for is put behind the others; where the piece
/// is then complete it is handed out, if it has the digest it should have,
/// and the session is ready again; else the next block is asked for.
pub open spec fn on_block(s: SessionView, payload: Seq<u8>) -> (SessionView, ActionView) {
    let piece = s.piece->Some_0;
    match awaited_block(s.outstanding->Some_0, payload) {
        None => close(s, Some(TorrentError::PeerMisbehaved)),
        Some(block) => {
            let data = s.buffer + block;
            if data.len() < piece.length {
                ask_next(SessionView { buffer: data, ..s })
            } else {
                (
                    SessionView {
                        state: SessionState::Ready,
                        piece: None,
                        buffer: Seq::empty(),
                        outstanding: None,
                        ..s
                    },
                    if sha1_digest(data) == piece.hash@ {
                        ActionView::PieceDone { index: piece.index, data }
                    } else {
                        ActionView::PieceFailed { index: piece.index }
                    },
                )
            }
        },
    }
}

/// What a message leads to in a session that is ready or awaits a block.
pub open spec fn on_unchoked_message(s: SessionView, id: MessageId, payload: Seq<u8>) -> (
    SessionView,
    ActionView,
) {
    if id == MessageId::Choke {
        on_choke(s)
    } else if id == MessageId::Piece && s.state == SessionState::AwaitingBlock {
        on_block(s, payload)
    } else {
        (s, ActionView::Wait)
    }
}

/// What the engine's wish for a piece leads to: a session that is ready
/// asks for the first block; any other session says no.
pub open spec fn on_download(s: SessionView, piece: Piece) -> (SessionView, ActionView) {
    if s.state == SessionState::Ready && fetchable(piece) {
        ask_next(SessionView { piece: Some(piece), buffer: Seq::empty(), ..s })
    } else {
        (s, ActionView::Rejected)
    }
}

/// What the end of work leads to: the request that is out, if any, is
/// cancelled, and the session closes.
pub open spec fn on_stop(s: SessionView) -> (SessionView, ActionView) {
    (
        s.closed(),
        ActionView::Close {
            farewell: match s.outstanding {
                Some(request) => frame_of(MessageId::Cancel.wire_id(), request.wire()),
                None => Seq::empty(),
            },
            reason: None,
        },
    )
}

/// The state machine: the session after `event`, and what the caller is to
/// do.
///
/// - A closed session stays closed whatever happens.
/// - A failure of the connection closes the session for that reason, the end
///   of work closes it for none.
/// - A keep-alive changes nothing.
/// - An event that the state does not allow closes the session, as
///   misbehaviour of the peer.
pub open spec fn step_spec(s: SessionView, event: EventView) -> (SessionView, ActionView) {
    if s.state == SessionState::Closed {
        (s, ActionView::Close { farewell: Seq::empty(), reason: None })
    } else {
        match event {
            EventView::Failed(e) => close(s, Some(e)),
            EventView::Stop => on_stop(s),
            EventView::KeepAlive => (s, ActionView::Wait),
            EventView::Download(piece) => on_download(s, piece),
            EventView::Connected => if s.state == SessionState::Connecting {
                (
                    SessionView { state: SessionState::HandshakeSent, ..s },
                    ActionView::Send(
                        seq![19u8] + crate::handshake::protocol_name()
                            + crate::handshake::reserved_bytes(s.use_extensions) + s.info_hash@
                            + s.peer_id@,
                    ),
                )
            } else {
                close(s, Some(TorrentError::PeerMisbehaved))
            },
            EventView::Handshake(m) => if s.state == SessionState::HandshakeSent {
                on_handshake(s, m)
            } else {
                close(s, Some(TorrentError::PeerMisbehaved))
            },
            EventView::Message { id, payload } => match s.state {
                SessionState::HandshakeAcked => on_first_message(s, id, payload),
                SessionState::BitfieldReceived => on_extension_reply(s, id, payload),
                SessionState::InterestedSent => on_choked_message(s, id),
                SessionState::Ready => on_unchoked_message(s, id, payload),
                SessionState::AwaitingBlock => on_unchoked_message(s, id, payload),
                _ => close(s, Some(TorrentError::PeerMisbehaved)),
            },
        }
    }
}


/// Well-formedness is kept: whatever happens to a well-formed session, the
/// session after it is well-formed.
pub proof fn lemma_step_keeps_well_formed(s: SessionView, event: EventView)
    requires
        s.well_formed(),
    ensures
        step_spec(s, event).0.well_formed(),
{
}

/// A closed session stays closed and asks for nothing; and a keep-alive
/// changes no session.
pub proof fn lemma_closed_and_keep_alive(s: SessionView, event: EventView)
    ensures
        s.state == SessionState::Closed ==> step_spec(s, event).0 == s,
        step_spec(s, EventView::KeepAlive).0 == s,
{
}

/// An Unchoke that reaches a session which is already unchoked changes
/// nothing.
pub proof fn lemma_unchoke_idempotent(s: SessionView, payload: Seq<u8>)
    requires
        s.state == SessionState::Ready || s.state == SessionState::AwaitingBlock,
    ensures
        step_spec(s, EventView::Message { id: MessageId::Unchoke, payload }) == (
            s,
            ActionView::Wait,
        ),
{
}

/// The request that is out has been allowed by the peer, asks for at least
/// one byte and at most 16 KiB, and stays inside the piece.
pub proof fn lemma_request_in_bounds(s: SessionView)
    requires
        s.well_formed(),
        s.outstanding is Some,
    ensures
        s.unchoke_received,
        0 < s.outstanding->Some_0.length <= BLOCK_SIZE,
        s.outstanding->Some_0.begin + s.outstanding->Some_0.length <= s.piece->Some_0.length,
        s.outstanding->Some_0.index == s.piece->Some_0.index,
{
}

/// A piece that a session hands out is the piece it was asked for: it has
/// the index, the length and the digest of that piece.
pub proof fn lemma_piece_done(s: SessionView, event: EventView)
    requires
        s.well_formed(),
        step_spec(s, event).1 is PieceDone,
    ensures
        s.piece matches Some(piece) && step_spec(s, event).1->PieceDone_index == piece.index
            && step_spec(s, event).1->PieceDone_data.len() == piece.length && sha1_digest(
            step_spec(s, event).1->PieceDone_data,
        ) == piece.hash@,
{
}

fn frame(id: MessageId, payload: &[u8]) -> (bytes: Vec<u8>)
    requires
        1 + payload.len() <= u32::MAX,
    ensures
        bytes@ == frame_of(id.wire_id(), payload@),
{
    let mut bytes: Vec<u8> = Vec::new();
    crate::bytes::push_be32(&mut bytes, 1 + payload.len() as u32);
    bytes.push(id.to_u8());
    append_bytes(&mut bytes, payload);
    assert(bytes@ =~= frame_of(id.wire_id(), payload@));
    bytes
}

impl PeerSession {
    /// A session that has not yet connected.
    pub fn new(info_hash: [u8; 20], peer_id: [u8; 20], use_extensions: bool) -> (s: Self)
        ensures
            s@.well_formed(),
            s.state == SessionState::Connecting,
            s.info_hash == info_hash,
            s.peer_id == peer_id,
            s.use_extensions == use_extensions,
            s.remote_id is None,
            !s.remote_extensions,
            s.extension_id is None,
            !s.unchoke_received,
            s.bitfield@.len() == 0,
            s.piece is None,
    {
        PeerSession {
            state: SessionState::Connecting,
            info_hash,
            peer_id,
            use_extensions,
            remote_id: None,
            remote_extensions: false,
            extension_id: None,
            unchoke_received: false,
            bitfield: Vec::new(),
            piece: None,
            buffer: Vec::new(),
            outstanding: None,
        }
    }

    /// Whether the session is as the state machine leaves it.
    pub fn is_well_formed(&self) -> (ok: bool)
        ensures
            ok == self@.well_formed(),
    {
        let awaiting = self.state == SessionState::AwaitingBlock;
        if self.outstanding.is_some() != awaiting {
            return false;
        }
        match self.piece {
            None => self.buffer.len() == 0 && !awaiting && (self.state != SessionState::Ready
                || self.unchoke_received),
            Some(piece) => {
                if !(piece.length > 0 && piece.index <= 0xffff_ffff && self.buffer.len()
                    < piece.length as usize) {
                    return false;
                }
                if self.state == SessionState::InterestedSent || self.state
                    == SessionState::Closed {
                    return true;
                }
                if !awaiting || !self.unchoke_received {
                    return false;
                }
                let begin = self.buffer.len() as u32;
                let left = piece.length - begin;
                let length = if left < BLOCK_SIZE { left } else { BLOCK_SIZE };
                match self.outstanding {
                    Some(request) => request.index == piece.index as u32 && request.begin
                        == begin && request.length == length,
                    None => false,
                }
            },
        }
    }

    fn close(&mut self, reason: Option<TorrentError>) -> (action: Action)
        ensures
            (final(self)@, action@) == close(old(self)@, reason),
    {
        self.state = SessionState::Closed;
        self.outstanding = None;
        let action = Action::Close { farewell: Vec::new(), reason };
        assert(self@ =~= old(self)@.closed());
        assert(action@ =~= close(old(self)@, reason).1);
        action
    }

    fn ask_next(&mut self) -> (action: Action)
        requires
            old(self).piece matches Some(piece) && fetchable(piece) && old(self).buffer@.len()
                < piece.length,
        ensures
            (final(self)@, action@) == ask_next(old(self)@),
    {
        let piece = match self.piece {
            Some(piece) => piece,
            None => Piece { index: 0, hash: [0u8;20], length: 0 },
        };
        let begin = self.buffer.len() as u32;
        let left = piece.length - begin;
        let length = if left < BLOCK_SIZE { left } else { BLOCK_SIZE };
        let request = RequestPayload::new(piece.index as u32, begin, length);
        self.state = SessionState::AwaitingBlock;
        self.outstanding = Some(request);
        let action = Action::Send(frame(MessageId::Request, request.to_bytes().as_slice()));
        assert(self@ =~= ask_next(old(self)@).0);
        action
    }

    fn on_block(&mut self, payload: &[u8]) -> (action: Action)
        requires
            old(self)@.well_formed(),
            old(self).state == SessionState::AwaitingBlock,
        ensures
            (final(self)@, action@) == on_block(old(self)@, payload@),
    {
        let request = match self.outstanding {
            Some(request) => request,
            None => RequestPayload { index: 0, begin: 0, length: 0 },
        };
        let piece = match self.piece {
            Some(piece) => piece,
            None => Piece { index: 0, hash: [0u8;20], length: 0 },
        };
        let block = match PiecePayload::from_bytes(payload) {
            Err(_) => {
                return self.close(Some(TorrentError::PeerMisbehaved));
            },
            Ok(p) => if p.index != request.index || p.begin != request.begin || p.block.len()
                != request.length as usize {
                return self.close(Some(TorrentError::PeerMisbehaved));
            } else {
                p.block
            },
        };
        append_bytes(&mut self.buffer, block.as_slice());
        if self.buffer.len() < piece.length as usize {
            let ghost grown = *self;
            let action = self.ask_next();
            assert(grown@ =~= (SessionView { buffer: old(self).buffer@ + block@, ..old(self)@ }));
            return action;
        }
        let mut data: Vec<u8> = Vec::new();
        std::mem::swap(&mut self.buffer, &mut data);
        self.state = SessionState::Ready;
        self.piece = None;
        self.outstanding = None;
        let action = if has_digest(data.as_slice(), &piece.hash) {
            Action::PieceDone { index: piece.index, data }
        } else {
            Action::PieceFailed { index: piece.index }
        };
        assert(self@ =~= on_block(old(self)@, payload@).0);
        assert(action@ =~= on_block(old(self)@, payload@).1);
        action
    }

    fn on_message(&mut self, id: MessageId, payload: Vec<u8>) -> (action: Action)
        requires
            old(self)@.well_formed(),
            old(self).state != SessionState::Closed,
        ensures
            (final(self)@, action@) == step_spec(
                old(self)@,
                EventView::Message { id, payload: payload@ },
            ),
    {
        match self.state {
            SessionState::HandshakeAcked => {
                if id != MessageId::Bitfield {
                    return self.close(Some(TorrentError::PeerMisbehaved));
                }
                self.bitfield = payload;
                if self.use_extensions && self.remote_extensions {
                    self.state = SessionState::BitfieldReceived;
                    let action = Action::Send(
                        frame(MessageId::Extension, extension_handshake_payload().as_slice()),
                    );
                    assert(self@ =~= on_first_message(old(self)@, id, payload@).0);
                    action
                } else {
                    self.state = SessionState::InterestedSent;
                    let nothing: Vec<u8> = Vec::new();
                    let action = Action::Send(frame(MessageId::Interested, nothing.as_slice()));
                    assert(self@ =~= on_first_message(old(self)@, id, payload@).0);
                    action
                }
            },
            SessionState::BitfieldReceived => {
                if id != MessageId::Extension {
                    return Action::Wait;
                }
                match peer_metadata_id(payload.as_slice()) {
                    Err(e) => self.close(Some(e)),
                    Ok(extension_id) => {
                        self.state = SessionState::InterestedSent;
                        self.extension_id = Some(extension_id);
                        let nothing: Vec<u8> = Vec::new();
                        let action = Action::Send(
                            frame(MessageId::Interested, nothing.as_slice()),
                        );
                        assert(self@ =~= on_extension_reply(old(self)@, id, payload@).0);
                        action
                    },
                }
            },
            SessionState::InterestedSent => {
                if id != MessageId::Unchoke {
                    return Action::Wait;
                }
                self.unchoke_received = true;
                if self.piece.is_some() {
                    let ghost unchoked = *self;
                    let action = self.ask_next();
                    assert(unchoked@ =~= (SessionView { unchoke_received: true, ..old(self)@ }));
                    action
                } else {
                    self.state = SessionState::Ready;
                    assert(self@ =~= on_choked_message(old(self)@, id).0);
                    Action::Wait
                }
            },
            SessionState::Ready | SessionState::AwaitingBlock => {
                if id == MessageId::Choke {
                    self.state = SessionState::InterestedSent;
                    self.unchoke_received = false;
                    self.outstanding = None;
                    let nothing: Vec<u8> = Vec::new();
                    let action = Action::Send(frame(MessageId::Interested, nothing.as_slice()));
                    assert(self@ =~= on_choke(old(self)@).0);
                    action
                } else if id == MessageId::Piece && self.state == SessionState::AwaitingBlock {
                    self.on_block(payload.as_slice())
                } else {
                    Action::Wait
                }
            },
            _ => self.close(Some(TorrentError::PeerMisbehaved)),
        }
    }

    /// Takes an event and says what to do. The session changes as the state
    /// machine says.
    pub fn step(&mut self, event: Event) -> (action: Action)
        requires
            old(self)@.well_formed(),
        ensures
            (final(self)@, action@) == step_spec(old(self)@, event@),
            final(self)@.well_formed(),
    {
        proof {
            lemma_step_keeps_well_formed(self@, event@);
        }
        if self.state == SessionState::Closed {
            return Action::Close { farewell: Vec::new(), reason: None };
        }
        match event {
            Event::Failed(e) => self.close(Some(e)),
            Event::Stop => {
                let farewell = match self.outstanding {
                    Some(request) => frame(MessageId::Cancel, request.to_bytes().as_slice()),
                    None => Vec::new(),
                };
                self.state = SessionState::Closed;
                self.outstanding = None;
                assert(self@ =~= old(self)@.closed());
                Action::Close { farewell, reason: None }
            },
            Event::KeepAlive => Action::Wait,
            Event::Download(piece) => {
                if self.state == SessionState::Ready && piece.length > 0 && piece.index
                    <= 0xffff_ffff {
                    self.piece = Some(piece);
                    self.buffer = Vec::new();
                    let ghost taken = *self;
                    let action = self.ask_next();
                    assert(taken@ =~= (SessionView {
                        piece: Some(piece),
                        buffer: Seq::empty(),
                        ..old(self)@
                    }));
                    action
                } else {
                    Action::Rejected
                }
            },
            Event::Connected => {
                if self.state == SessionState::Connecting {
                    self.state = SessionState::HandshakeSent;
                    let ours = HandshakeMessage::with_peer_id(
                        self.info_hash,
                        self.peer_id,
                        self.use_extensions,
                    );
                    let bytes = ours.to_bytes();
                    let sent = crate::bytes::copy_range(bytes.as_slice(), 0, 68);
                    assert(sent@ =~= ours.frame());
                    assert(self@ =~= (SessionView {
                        state: SessionState::HandshakeSent,
                        ..old(self)@
                    }));
                    Action::Send(sent)
                } else {
                    self.close(Some(TorrentError::PeerMisbehaved))
                }
            },
            Event::Handshake(m) => {
                if self.state != SessionState::HandshakeSent {
                    return self.close(Some(TorrentError::PeerMisbehaved));
                }
                if !bytes_eq(m.info_hash.as_slice(), self.info_hash.as_slice()) {
                    return self.close(Some(TorrentError::HandshakeRejected));
                }
                self.state = SessionState::HandshakeAcked;
                self.remote_id = Some(m.peer_id);
                self.remote_extensions = m.supports_extensions();
                assert(self@ =~= on_handshake(old(self)@, m).0);
                Action::Wait
            },
            Event::Message { id, payload } => self.on_message(id, payload),
        }
    }
}

} // verus!
