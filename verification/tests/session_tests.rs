use bittorrent::errors::TorrentError;
use bittorrent::extension::extension_handshake_payload;
use bittorrent::handshake::HandshakeMessage;
use bittorrent::peer_messages::{MessageId, PeerMessage, RequestPayload};
use bittorrent::pieces::Piece;
use bittorrent::session::{Action, Event, PeerSession, SessionState};
use sha1::{Digest, Sha1};

const HASH: [u8; 20] = [9u8; 20];
const OUR_ID: [u8; 20] = *b"11111111111111111111";
const THEIR_ID: [u8; 20] = *b"22222222222222222222";

fn frame(id: MessageId, payload: Vec<u8>) -> Vec<u8> {
    PeerMessage::new(id, payload).to_bytes()
}

fn message(id: MessageId, payload: Vec<u8>) -> Event {
    Event::Message { id, payload }
}

fn sent(action: Action) -> Vec<u8> {
    match action {
        Action::Send(bytes) => bytes,
        other => panic!("expected bytes to send, got {:?}", other),
    }
}

fn data(length: usize) -> Vec<u8> {
    (0..length).map(|i| (i * 7 % 256) as u8).collect()
}

fn piece(index: usize, content: &[u8]) -> Piece {
    Piece::new(index, Sha1::digest(content).into(), content.len() as u32)
}

fn block(index: u32, begin: u32, bytes: &[u8]) -> Event {
    let mut payload = Vec::new();
    payload.extend_from_slice(&index.to_be_bytes());
    payload.extend_from_slice(&begin.to_be_bytes());
    payload.extend_from_slice(bytes);
    message(MessageId::Piece, payload)
}

fn request(index: u32, begin: u32, length: u32) -> Vec<u8> {
    frame(MessageId::Request, RequestPayload::new(index, begin, length).to_bytes())
}

/// A session that has connected, shaken hands, got the bitfield and been unchoked.
fn ready() -> PeerSession {
    let mut s = PeerSession::new(HASH, OUR_ID, false);
    s.step(Event::Connected);
    s.step(Event::Handshake(HandshakeMessage::with_peer_id(HASH, THEIR_ID, false)));
    s.step(message(MessageId::Bitfield, vec![0xe0]));
    s.step(message(MessageId::Unchoke, vec![]));
    assert_eq!(s.state, SessionState::Ready);
    s
}

#[test]
fn walks_from_connecting_to_ready() {
    let mut s = PeerSession::new(HASH, OUR_ID, false);
    assert_eq!(s.state, SessionState::Connecting);
    let handshake = sent(s.step(Event::Connected));
    assert_eq!(handshake, HandshakeMessage::with_peer_id(HASH, OUR_ID, false).to_bytes().to_vec());
    assert_eq!(s.state, SessionState::HandshakeSent);
    let reply = HandshakeMessage::with_peer_id(HASH, THEIR_ID, true);
    assert!(matches!(s.step(Event::Handshake(reply)), Action::Wait));
    assert_eq!(s.state, SessionState::HandshakeAcked);
    assert_eq!(s.remote_id, Some(THEIR_ID));
    assert!(s.remote_extensions);
    let interested = sent(s.step(message(MessageId::Bitfield, vec![0xa0])));
    assert_eq!(interested, vec![0, 0, 0, 1, 2]);
    assert_eq!(s.state, SessionState::InterestedSent);
    assert_eq!(s.bitfield, vec![0xa0]);
    assert!(!s.unchoke_received);
    assert!(matches!(s.step(message(MessageId::Unchoke, vec![])), Action::Wait));
    assert_eq!(s.state, SessionState::Ready);
    assert!(s.unchoke_received);
}

#[test]
fn handshake_for_another_torrent_closes_the_session() {
    let mut s = PeerSession::new(HASH, OUR_ID, false);
    s.step(Event::Connected);
    let reply = HandshakeMessage::with_peer_id([8u8; 20], THEIR_ID, false);
    match s.step(Event::Handshake(reply)) {
        Action::Close { farewell, reason } => {
            assert!(farewell.is_empty());
            assert_eq!(reason, Some(TorrentError::HandshakeRejected));
        }
        other => panic!("unexpected {:?}", other),
    }
    assert_eq!(s.state, SessionState::Closed);
}

#[test]
fn first_message_must_be_the_bitfield() {
    let mut s = PeerSession::new(HASH, OUR_ID, false);
    s.step(Event::Connected);
    s.step(Event::Handshake(HandshakeMessage::with_peer_id(HASH, THEIR_ID, false)));
    assert!(matches!(
        s.step(message(MessageId::Unchoke, vec![])),
        Action::Close { reason: Some(TorrentError::PeerMisbehaved), .. }
    ));
    assert_eq!(s.state, SessionState::Closed);
}

#[test]
fn extension_handshake_where_both_sides_want_it() {
    let mut s = PeerSession::new(HASH, OUR_ID, true);
    let ours = sent(s.step(Event::Connected));
    assert_eq!(ours[25], 0x10);
    s.step(Event::Handshake(HandshakeMessage::with_peer_id(HASH, THEIR_ID, true)));
    let out = sent(s.step(message(MessageId::Bitfield, vec![0xff])));
    assert_eq!(out, frame(MessageId::Extension, extension_handshake_payload()));
    assert_eq!(s.state, SessionState::BitfieldReceived);
    // other messages are passed over while the reply is awaited
    assert!(matches!(s.step(message(MessageId::Have, vec![0, 0, 0, 1])), Action::Wait));
    assert_eq!(s.state, SessionState::BitfieldReceived);
    let mut reply = vec![0u8];
    reply.extend_from_slice(b"d1:md11:ut_metadatai42eee");
    let out = sent(s.step(message(MessageId::Extension, reply)));
    assert_eq!(out, vec![0, 0, 0, 1, 2]);
    assert_eq!(s.extension_id, Some(42));
    assert_eq!(s.state, SessionState::InterestedSent);
}

#[test]
fn no_extension_handshake_where_the_peer_does_not_offer_it() {
    let mut s = PeerSession::new(HASH, OUR_ID, true);
    s.step(Event::Connected);
    s.step(Event::Handshake(HandshakeMessage::with_peer_id(HASH, THEIR_ID, false)));
    let out = sent(s.step(message(MessageId::Bitfield, vec![0xff])));
    assert_eq!(out, vec![0, 0, 0, 1, 2]);
    assert_eq!(s.state, SessionState::InterestedSent);
}

#[test]
fn extension_handshake_that_is_wrong_closes_the_session() {
    let mut s = PeerSession::new(HASH, OUR_ID, true);
    s.step(Event::Connected);
    s.step(Event::Handshake(HandshakeMessage::with_peer_id(HASH, THEIR_ID, true)));
    s.step(message(MessageId::Bitfield, vec![0xff]));
    let mut reply = vec![0u8];
    reply.extend_from_slice(b"d1:mdee");
    assert!(matches!(
        s.step(message(MessageId::Extension, reply)),
        Action::Close { reason: Some(TorrentError::PeerMisbehaved), .. }
    ));
}

#[test]
fn messages_before_unchoke_are_passed_over() {
    let mut s = PeerSession::new(HASH, OUR_ID, false);
    s.step(Event::Connected);
    s.step(Event::Handshake(HandshakeMessage::with_peer_id(HASH, THEIR_ID, false)));
    s.step(message(MessageId::Bitfield, vec![0xff]));
    for event in [
        message(MessageId::Choke, vec![]),
        message(MessageId::Have, vec![0, 0, 0, 1]),
        message(MessageId::NotInterested, vec![]),
        block(0, 0, &[1, 2, 3]),
        Event::KeepAlive,
    ] {
        assert!(matches!(s.step(event), Action::Wait));
        assert_eq!(s.state, SessionState::InterestedSent);
    }
    assert!(matches!(s.step(Event::Download(piece(0, &data(10)))), Action::Rejected));
}

#[test]
fn downloads_a_piece_block_by_block() {
    let content = data(40000);
    let mut s = ready();
    let out = sent(s.step(Event::Download(piece(3, &content))));
    assert_eq!(out, request(3, 0, 16384));
    assert_eq!(s.state, SessionState::AwaitingBlock);
    let out = sent(s.step(block(3, 0, &content[..16384])));
    assert_eq!(out, request(3, 16384, 16384));
    // a keep-alive in between changes nothing
    assert!(matches!(s.step(Event::KeepAlive), Action::Wait));
    assert_eq!(s.state, SessionState::AwaitingBlock);
    let out = sent(s.step(block(3, 16384, &content[16384..32768])));
    assert_eq!(out, request(3, 32768, 40000 - 32768));
    match s.step(block(3, 32768, &content[32768..])) {
        Action::PieceDone { index, data } => {
            assert_eq!(index, 3);
            assert_eq!(data, content);
        }
        other => panic!("unexpected {:?}", other),
    }
    assert_eq!(s.state, SessionState::Ready);
    assert!(s.piece.is_none());
    assert!(s.buffer.is_empty());
    // and the next piece
    let small = data(100);
    assert_eq!(sent(s.step(Event::Download(piece(4, &small)))), request(4, 0, 100));
    assert!(matches!(s.step(block(4, 0, &small)), Action::PieceDone { index: 4, .. }));
}

#[test]
fn piece_of_exactly_one_block() {
    let content = data(16384);
    let mut s = ready();
    assert_eq!(sent(s.step(Event::Download(piece(0, &content)))), request(0, 0, 16384));
    assert!(matches!(s.step(block(0, 0, &content)), Action::PieceDone { index: 0, .. }));
}

#[test]
fn piece_with_the_wrong_digest_fails() {
    let content = data(500);
    let mut wanted = piece(1, &content);
    wanted.hash[0] ^= 1;
    let mut s = ready();
    s.step(Event::Download(wanted));
    assert!(matches!(s.step(block(1, 0, &content)), Action::PieceFailed { index: 1 }));
    assert_eq!(s.state, SessionState::Ready);
}

#[test]
fn block_that_was_not_asked_for_closes_the_session() {
    let content = data(20000);
    let wrong: Vec<Event> = vec![
        block(2, 0, &content[..16384]),
        block(1, 16384, &content[..16384]),
        block(1, 0, &content[..16383]),
        block(1, 0, &content[..16385]),
        block(1, 0, &[]),
        message(MessageId::Piece, vec![0, 0, 0, 1]),
    ];
    for event in wrong {
        let mut s = ready();
        s.step(Event::Download(piece(1, &content)));
        assert!(matches!(
            s.step(event),
            Action::Close { reason: Some(TorrentError::PeerMisbehaved), .. }
        ));
        assert_eq!(s.state, SessionState::Closed);
    }
}

#[test]
fn block_beyond_the_end_of_the_piece_closes_the_session() {
    let content = data(20000);
    let mut s = ready();
    s.step(Event::Download(piece(1, &content)));
    s.step(block(1, 0, &content[..16384]));
    // the rest is 3616 bytes; a whole block would run over the end
    assert!(matches!(
        s.step(block(1, 16384, &data(16384))),
        Action::Close { reason: Some(TorrentError::PeerMisbehaved), .. }
    ));
}

#[test]
fn unexpected_piece_while_ready_is_discarded() {
    let mut s = ready();
    assert!(matches!(s.step(block(0, 0, &[1, 2, 3])), Action::Wait));
    assert_eq!(s.state, SessionState::Ready);
}

#[test]
fn unchoke_when_unchoked_changes_nothing() {
    let mut s = ready();
    assert!(matches!(s.step(message(MessageId::Unchoke, vec![])), Action::Wait));
    assert_eq!(s.state, SessionState::Ready);
    let content = data(20000);
    s.step(Event::Download(piece(0, &content)));
    assert!(matches!(s.step(message(MessageId::Unchoke, vec![])), Action::Wait));
    assert_eq!(s.state, SessionState::AwaitingBlock);
    assert_eq!(s.outstanding, Some(RequestPayload::new(0, 0, 16384)));
}

#[test]
fn choke_in_the_middle_of_a_piece() {
    let content = data(40000);
    let mut s = ready();
    s.step(Event::Download(piece(5, &content)));
    s.step(block(5, 0, &content[..16384]));
    // choked: interested goes out again, the request is given up
    assert_eq!(sent(s.step(message(MessageId::Choke, vec![]))), vec![0, 0, 0, 1, 2]);
    assert_eq!(s.state, SessionState::InterestedSent);
    assert!(!s.unchoke_received);
    assert_eq!(s.outstanding, None);
    assert_eq!(s.buffer.len(), 16384);
    // a block that arrives now is discarded
    assert!(matches!(s.step(block(5, 16384, &content[16384..32768])), Action::Wait));
    assert_eq!(s.buffer.len(), 16384);
    // no new piece while choked
    assert!(matches!(s.step(Event::Download(piece(6, &content))), Action::Rejected));
    // unchoked: the block that was given up is asked for again
    assert_eq!(sent(s.step(message(MessageId::Unchoke, vec![]))), request(5, 16384, 16384));
    assert_eq!(s.state, SessionState::AwaitingBlock);
    s.step(block(5, 16384, &content[16384..32768]));
    match s.step(block(5, 32768, &content[32768..])) {
        Action::PieceDone { index, data } => {
            assert_eq!(index, 5);
            assert_eq!(data, content);
        }
        other => panic!("unexpected {:?}", other),
    }
}

#[test]
fn choke_while_ready() {
    let mut s = ready();
    assert_eq!(sent(s.step(message(MessageId::Choke, vec![]))), vec![0, 0, 0, 1, 2]);
    assert_eq!(s.state, SessionState::InterestedSent);
    assert!(matches!(s.step(message(MessageId::Unchoke, vec![])), Action::Wait));
    assert_eq!(s.state, SessionState::Ready);
}

#[test]
fn stop_cancels_the_request_that_is_out() {
    let content = data(40000);
    let mut s = ready();
    s.step(Event::Download(piece(2, &content)));
    s.step(block(2, 0, &content[..16384]));
    match s.step(Event::Stop) {
        Action::Close { farewell, reason } => {
            assert_eq!(
                farewell,
                frame(MessageId::Cancel, RequestPayload::new(2, 16384, 16384).to_bytes())
            );
            assert_eq!(reason, None);
        }
        other => panic!("unexpected {:?}", other),
    }
    assert_eq!(s.state, SessionState::Closed);
    assert_eq!(s.outstanding, None);
}

#[test]
fn stop_without_a_request_says_nothing() {
    let mut s = ready();
    match s.step(Event::Stop) {
        Action::Close { farewell, reason } => {
            assert!(farewell.is_empty());
            assert_eq!(reason, None);
        }
        other => panic!("unexpected {:?}", other),
    }
}

#[test]
fn failure_closes_the_session_for_its_reason() {
    for reason in [TorrentError::ReadIo, TorrentError::WriteIo, TorrentError::ConnectTimeout] {
        let mut s = ready();
        match s.step(Event::Failed(reason)) {
            Action::Close { farewell, reason: given } => {
                assert!(farewell.is_empty());
                assert_eq!(given, Some(reason));
            }
            other => panic!("unexpected {:?}", other),
        }
        assert_eq!(s.state, SessionState::Closed);
    }
}

#[test]
fn closed_session_stays_closed() {
    let mut s = ready();
    s.step(Event::Stop);
    for event in [
        Event::Connected,
        Event::KeepAlive,
        Event::Stop,
        Event::Failed(TorrentError::ReadIo),
        message(MessageId::Unchoke, vec![]),
        Event::Download(piece(0, &data(10))),
    ] {
        assert!(matches!(s.step(event), Action::Close { reason: None, .. }));
        assert_eq!(s.state, SessionState::Closed);
    }
}

#[test]
fn events_out_of_place_close_the_session() {
    let mut s = PeerSession::new(HASH, OUR_ID, false);
    assert!(matches!(
        s.step(message(MessageId::Bitfield, vec![])),
        Action::Close { reason: Some(TorrentError::PeerMisbehaved), .. }
    ));
    let mut s = ready();
    assert!(matches!(
        s.step(Event::Connected),
        Action::Close { reason: Some(TorrentError::PeerMisbehaved), .. }
    ));
    let mut s = ready();
    assert!(matches!(
        s.step(Event::Handshake(HandshakeMessage::with_peer_id(HASH, THEIR_ID, false))),
        Action::Close { reason: Some(TorrentError::PeerMisbehaved), .. }
    ));
}

#[test]
fn empty_piece_is_not_taken() {
    let mut s = ready();
    assert!(matches!(s.step(Event::Download(piece(0, &[]))), Action::Rejected));
    assert_eq!(s.state, SessionState::Ready);
}

#[test]
fn session_knows_whether_it_is_sound() {
    let mut s = ready();
    assert!(s.is_well_formed());
    let content = data(40000);
    s.step(Event::Download(piece(0, &content)));
    assert!(s.is_well_formed());
    s.step(block(0, 0, &content[..16384]));
    assert!(s.is_well_formed());
    // a request other than the one that comes next
    let kept = s.outstanding;
    s.outstanding = Some(RequestPayload::new(0, 0, 16384));
    assert!(!s.is_well_formed());
    s.outstanding = None;
    assert!(!s.is_well_formed());
    s.outstanding = kept;
    assert!(s.is_well_formed());
    // a buffer as long as the piece
    s.buffer = content.clone();
    assert!(!s.is_well_formed());
    s.buffer = content[..16384].to_vec();
    s.unchoke_received = false;
    assert!(!s.is_well_formed());
    let mut s = ready();
    s.buffer = vec![1];
    assert!(!s.is_well_formed());
}
