use bittorrent::errors::TorrentError;
use bittorrent::extension::{
    extension_handshake_payload, metadata_request, metadata_step, parse_metadata_reply,
    peer_metadata_id, split_header_and_data, verify_metadata, MetadataFetch, MetadataPiece,
    MetadataStep,
};
use bittorrent::handshake::HandshakeMessage;
use bittorrent::session::{Event, PeerSession};
use sha1::{Digest, Sha1};

fn digest(data: &[u8]) -> [u8; 20] {
    Sha1::digest(data).into()
}

#[test]
fn our_extension_handshake() {
    let mut expected = vec![0u8];
    expected.extend_from_slice(b"d1:md11:ut_metadatai21eee");
    assert_eq!(extension_handshake_payload(), expected);
}

#[test]
fn peer_id_for_metadata() {
    let mut payload = vec![0u8];
    payload.extend_from_slice(b"d1:md11:ut_metadatai3ee13:metadata_sizei132ee");
    assert_eq!(peer_metadata_id(&payload), Ok(3));
    let mut payload = vec![0u8];
    payload.extend_from_slice(b"d1:md11:ut_metadatai255eee");
    assert_eq!(peer_metadata_id(&payload), Ok(255));
}

#[test]
fn peer_id_for_metadata_that_is_wrong() {
    assert_eq!(peer_metadata_id(&[]), Err(TorrentError::ShortRead));
    // not a handshake
    let mut payload = vec![1u8];
    payload.extend_from_slice(b"d1:md11:ut_metadatai3eee");
    assert_eq!(peer_metadata_id(&payload), Err(TorrentError::PeerMisbehaved));
    // an id that does not fit in a byte
    let mut payload = vec![0u8];
    payload.extend_from_slice(b"d1:md11:ut_metadatai256eee");
    assert_eq!(peer_metadata_id(&payload), Err(TorrentError::PeerMisbehaved));
    // no metadata extension
    let mut payload = vec![0u8];
    payload.extend_from_slice(b"d1:mdee");
    assert_eq!(peer_metadata_id(&payload), Err(TorrentError::PeerMisbehaved));
    assert!(matches!(peer_metadata_id(&[0, b'd']), Err(TorrentError::MalformedBencode { .. })));
}

#[test]
fn request_for_a_piece_of_metadata() {
    let mut expected = vec![3u8];
    expected.extend_from_slice(b"d8:msg_typei0e5:piecei0ee");
    assert_eq!(metadata_request(3, 0), expected);
    let mut expected = vec![255u8];
    expected.extend_from_slice(b"d8:msg_typei0e5:piecei4294967295ee");
    assert_eq!(metadata_request(255, u32::MAX), expected);
}

#[test]
fn splits_at_the_first_ee() {
    let (header, data) = split_header_and_data(b"d1:ai1eeXYZee").unwrap();
    assert_eq!(header, b"d1:ai1ee");
    assert_eq!(data, b"XYZee");
    let (header, data) = split_header_and_data(b"ee").unwrap();
    assert_eq!(header, b"ee");
    assert_eq!(data, b"");
    assert_eq!(split_header_and_data(b"").map(|_| ()), None);
    assert_eq!(split_header_and_data(b"e").map(|_| ()), None);
    assert_eq!(split_header_and_data(b"d1:ai1e").map(|_| ()), None);
    assert_eq!(split_header_and_data(b"exexe").map(|_| ()), None);
}

fn reply(id: u8, header: &str, data: &[u8]) -> Vec<u8> {
    let mut payload = vec![id];
    payload.extend_from_slice(header.as_bytes());
    payload.extend_from_slice(data);
    payload
}

#[test]
fn reads_a_piece_of_metadata() {
    let payload = reply(21, "d8:msg_typei1e5:piecei0e10:total_sizei5ee", b"hello");
    let piece = parse_metadata_reply(&payload, 21).unwrap();
    assert_eq!(piece.piece, 0);
    assert_eq!(piece.total_size, 5);
    assert_eq!(piece.data, b"hello".to_vec());
}

#[test]
fn refuses_a_reply_that_is_wrong() {
    let good = "d8:msg_typei1e5:piecei0e10:total_sizei5ee";
    let cases: Vec<Vec<u8>> = vec![
        vec![],
        vec![21],
        reply(20, good, b"hello"),
        reply(21, "d8:msg_typei2e5:piecei0e10:total_sizei5ee", b""),
        reply(21, "d8:msg_typei0e5:piecei0e10:total_sizei5ee", b""),
        reply(21, "d5:piecei0e10:total_sizei5ee", b""),
        reply(21, "d8:msg_typei1e10:total_sizei5ee", b""),
        reply(21, "d8:msg_typei1e5:piecei0ee", b""),
        reply(21, "d8:msg_typei1e5:piecei-1e10:total_sizei5ee", b""),
        reply(21, "d8:msg_typei1e5:piecei0e10:total_sizei4294967296ee", b""),
        reply(21, "l8:msg_typei1ee", b""),
        reply(21, "d8:msg_typei1e5:piecei0e10:total_sizei5e", b""),
        reply(21, "xee", b""),
    ];
    for payload in cases {
        assert_eq!(
            parse_metadata_reply(&payload, 21).map(|_| ()),
            Err(TorrentError::PeerMisbehaved),
            "{:?}",
            payload
        );
    }
}

fn sample_info() -> Vec<u8> {
    let mut bytes = b"d6:lengthi92063e4:name10:sample.txt12:piece lengthi32768e6:pieces60:".to_vec();
    bytes.extend_from_slice(&[0x5au8; 60]);
    bytes.push(b'e');
    bytes
}

#[test]
fn metadata_is_checked_against_the_info_hash() {
    let raw = sample_info();
    let info = verify_metadata(&raw, &digest(&raw)).unwrap();
    assert_eq!(info.name, "sample.txt");
    assert_eq!(info.length, 92063);
    assert_eq!(info.piece_length, 32768);
    assert_eq!(info.pieces, vec![0x5au8; 60]);
    assert_eq!(info.info_hash(), digest(&raw));
    let mut other = digest(&raw);
    other[0] ^= 0x80;
    assert_eq!(verify_metadata(&raw, &other).map(|_| ()), Err(TorrentError::MetadataCorrupt));
    let junk = b"d1:ai1ee";
    assert_eq!(
        verify_metadata(junk, &digest(junk)).map(|_| ()),
        Err(TorrentError::MalformedMetainfo)
    );
    let broken = b"d1:a";
    assert!(matches!(
        verify_metadata(broken, &digest(broken)),
        Err(TorrentError::MalformedBencode { .. })
    ));
}

#[test]
fn fetches_metadata_in_one_piece() {
    let raw = sample_info();
    let mut fetch = MetadataFetch::new();
    assert!(!fetch.is_complete());
    assert_eq!(fetch.next_request(7), Some(metadata_request(7, 0)));
    let piece = MetadataPiece { piece: 0, total_size: raw.len() as u32, data: raw.clone() };
    assert_eq!(fetch.accept(piece), Ok(true));
    assert!(fetch.is_complete());
    assert_eq!(fetch.next_request(7), None);
    assert_eq!(fetch.finish(&digest(&raw)).unwrap().name, "sample.txt");
    assert_eq!(fetch.finish(&[0u8; 20]).map(|_| ()), Err(TorrentError::MetadataCorrupt));
}

#[test]
fn fetches_metadata_in_several_pieces() {
    let total = 16384 * 2 + 100;
    let raw: Vec<u8> = (0..total).map(|i| (i % 251) as u8).collect();
    let mut fetch = MetadataFetch::new();
    assert_eq!(fetch.finish(&digest(&raw)).map(|_| ()), Err(TorrentError::MetadataCorrupt));
    for (i, chunk) in raw.chunks(16384).enumerate() {
        assert_eq!(fetch.next_request(2), Some(metadata_request(2, i as u32)));
        let piece =
            MetadataPiece { piece: i as u32, total_size: total as u32, data: chunk.to_vec() };
        assert_eq!(fetch.accept(piece), Ok(i == 2));
    }
    assert_eq!(fetch.received, raw);
    assert_eq!(fetch.total_size, Some(total as u32));
}

#[test]
fn refuses_metadata_pieces_out_of_turn() {
    let total: u32 = 16384 + 10;
    let first = MetadataPiece { piece: 0, total_size: total, data: vec![1; 16384] };
    let mut fetch = MetadataFetch::new();
    // the second piece before the first
    let early = MetadataPiece { piece: 1, total_size: total, data: vec![2; 10] };
    assert_eq!(fetch.accept(early), Err(TorrentError::PeerMisbehaved));
    // a first piece that is too short
    let short = MetadataPiece { piece: 0, total_size: total, data: vec![1; 100] };
    assert_eq!(fetch.accept(short), Err(TorrentError::PeerMisbehaved));
    assert!(fetch.received.is_empty());
    assert_eq!(fetch.total_size, None);
    assert_eq!(fetch.accept(first), Ok(false));
    // another total size
    let other = MetadataPiece { piece: 1, total_size: total + 1, data: vec![2; 11] };
    assert_eq!(fetch.accept(other), Err(TorrentError::PeerMisbehaved));
    // too long
    let long = MetadataPiece { piece: 1, total_size: total, data: vec![2; 11] };
    assert_eq!(fetch.accept(long), Err(TorrentError::PeerMisbehaved));
    assert_eq!(fetch.received.len(), 16384);
    let last = MetadataPiece { piece: 1, total_size: total, data: vec![2; 10] };
    assert_eq!(fetch.accept(last), Ok(true));
    // nothing more once complete
    let more = MetadataPiece { piece: 2, total_size: total, data: vec![] };
    assert_eq!(fetch.accept(more), Err(TorrentError::PeerMisbehaved));
    assert_eq!(fetch.received.len(), total as usize);
}

#[test]
fn fetch_knows_whether_it_is_sound() {
    let mut fetch = MetadataFetch::new();
    assert!(fetch.is_well_formed());
    fetch.received = vec![1];
    assert!(!fetch.is_well_formed());
    fetch.total_size = Some(1);
    assert!(fetch.is_well_formed());
    fetch.total_size = Some(0);
    assert!(!fetch.is_well_formed());
}

#[test]
fn what_comes_next_in_the_search_for_metadata() {
    let mut session = PeerSession::new([1; 20], [b'1'; 20], true);
    // nothing is known of the peer yet
    assert!(!session.remote_extensions);
    assert_eq!(metadata_step(&session, None), MetadataStep::Continue);
    session.step(Event::Connected);
    assert_eq!(metadata_step(&session, None), MetadataStep::Continue);
    // corrupt metadata ends the search, any other failure tries the next peer
    assert_eq!(
        metadata_step(&session, Some(TorrentError::MetadataCorrupt)),
        MetadataStep::GiveUp { reason: TorrentError::MetadataCorrupt }
    );
    for reason in [
        TorrentError::ReadIo,
        TorrentError::ShortRead,
        TorrentError::PeerMisbehaved,
        TorrentError::MalformedMetainfo,
        TorrentError::ConnectTimeout,
    ] {
        assert_eq!(metadata_step(&session, Some(reason)), MetadataStep::NextPeer { reason });
    }
    // a peer without the extension bit is left
    let mut plain = PeerSession::new([1; 20], [b'1'; 20], true);
    plain.step(Event::Connected);
    plain.step(Event::Handshake(HandshakeMessage::with_peer_id([1; 20], [b'2'; 20], false)));
    assert_eq!(
        metadata_step(&plain, None),
        MetadataStep::NextPeer { reason: TorrentError::PeerMisbehaved }
    );
    session.step(Event::Handshake(HandshakeMessage::with_peer_id([1; 20], [b'2'; 20], true)));
    assert_eq!(metadata_step(&session, None), MetadataStep::Continue);
}
