use bittorrent::errors::TorrentError;
use bittorrent::handshake::{generate_peer_id, HandshakeMessage};
use bittorrent::peer_messages::{
    read_frame, ExtensionPayload, ExtensionPayloadData, ExtensionPayloadDataM, Frame, MessageId,
    PeerMessage, PiecePayload, RequestPayload,
};

fn hash() -> [u8; 20] {
    let mut h = [0u8; 20];
    for (i, b) in h.iter_mut().enumerate() {
        *b = i as u8 + 1;
    }
    h
}

#[test]
fn peer_id_is_twenty_digits() {
    let id = generate_peer_id();
    assert_eq!(id.len(), 20);
    assert!(id.iter().all(|b| b.is_ascii_digit()));
}

#[test]
fn handshake_frame_layout() {
    let m = HandshakeMessage::with_peer_id(hash(), *b"00112233445566778899", false);
    let bytes = m.to_bytes();
    assert_eq!(bytes.len(), 68);
    assert_eq!(bytes[0], 19);
    assert_eq!(&bytes[1..20], b"BitTorrent protocol");
    assert_eq!(&bytes[20..28], &[0u8; 8]);
    assert_eq!(&bytes[28..48], &hash());
    assert_eq!(&bytes[48..68], b"00112233445566778899");
}

#[test]
fn handshake_for_a_magnet_sets_the_extension_bit() {
    let m = HandshakeMessage::with_peer_id(hash(), *b"00112233445566778899", true);
    assert_eq!(m.reserved, [0, 0, 0, 0, 0, 0x10, 0, 0]);
    assert!(m.supports_extensions());
    let plain = HandshakeMessage::new(hash(), false);
    assert_eq!(plain.reserved, [0u8; 8]);
    assert!(!plain.supports_extensions());
    assert_eq!(plain.length, 19);
    assert_eq!(&plain.protocol, b"BitTorrent protocol");
    assert_eq!(plain.info_hash, hash());
    assert!(plain.peer_id.iter().all(|b| b.is_ascii_digit()));
}

#[test]
fn handshake_keeps_what_the_peer_sent() {
    let mut bytes = [0u8; 68];
    for (i, b) in bytes.iter_mut().enumerate() {
        *b = (i * 3 + 1) as u8;
    }
    let m = HandshakeMessage::from_bytes(&bytes).unwrap();
    assert_eq!(m.length, bytes[0]);
    assert_eq!(m.protocol[..], bytes[1..20]);
    assert_eq!(m.reserved[..], bytes[20..28]);
    assert_eq!(m.info_hash[..], bytes[28..48]);
    assert_eq!(m.peer_id[..], bytes[48..68]);
}

#[test]
fn handshake_round_trip() {
    let mut bytes = [0u8; 68];
    for (i, b) in bytes.iter_mut().enumerate() {
        *b = (i * 3 + 1) as u8;
    }
    bytes[0] = 19;
    bytes[1..20].copy_from_slice(b"BitTorrent protocol");
    let m = HandshakeMessage::from_bytes(&bytes).unwrap();
    assert_eq!(m.to_bytes(), bytes);
    let again = HandshakeMessage::from_bytes(&m.to_bytes()).unwrap();
    assert_eq!(again.to_bytes(), bytes);
}

#[test]
fn handshake_is_written_with_the_protocol_name_whatever_the_field_holds() {
    let m = HandshakeMessage {
        length: 19,
        protocol: [0u8; 19],
        reserved: [1, 2, 3, 4, 5, 6, 7, 8],
        info_hash: [0xaa; 20],
        peer_id: [0xbb; 20],
    };
    let bytes = m.to_bytes();
    assert_eq!(bytes.len(), 68);
    assert_eq!(bytes[0], 0x13);
    assert_eq!(&bytes[1..20], b"BitTorrent protocol");
    assert_eq!(&bytes[20..28], &[1, 2, 3, 4, 5, 6, 7, 8]);
    assert_eq!(&bytes[28..48], &[0xaa; 20]);
    assert_eq!(&bytes[48..68], &[0xbb; 20]);
    // the value itself is as it was
    assert_eq!(m.protocol, [0u8; 19]);
    let mut sent = [0x5au8; 68];
    sent[1..20].copy_from_slice(b"bittorrent PROTOCOL");
    let read = HandshakeMessage::from_bytes(&sent).unwrap();
    assert_eq!(&read.protocol, b"bittorrent PROTOCOL");
    assert_eq!(&read.to_bytes()[1..20], b"BitTorrent protocol");
    assert_eq!(read.to_bytes()[0], 0x5a);
}

#[test]
fn handshake_too_short() {
    assert_eq!(HandshakeMessage::from_bytes(&[0u8; 67]).unwrap_err(), TorrentError::ShortRead);
    assert!(HandshakeMessage::from_bytes(&[0u8; 70]).is_ok());
}

#[test]
fn handshake_is_accepted_only_for_the_same_info_hash() {
    let m = HandshakeMessage::with_peer_id(hash(), [b'1'; 20], false);
    assert_eq!(m.accept(&hash()), Ok(()));
    let mut other = hash();
    other[19] ^= 1;
    assert_eq!(m.accept(&other), Err(TorrentError::HandshakeRejected));
}

#[test]
fn message_ids() {
    let known = [
        (0, MessageId::Choke),
        (1, MessageId::Unchoke),
        (2, MessageId::Interested),
        (3, MessageId::NotInterested),
        (4, MessageId::Have),
        (5, MessageId::Bitfield),
        (6, MessageId::Request),
        (7, MessageId::Piece),
        (8, MessageId::Cancel),
        (20, MessageId::Extension),
    ];
    for (id, kind) in known {
        assert_eq!(MessageId::from(id), Ok(kind));
        assert_eq!(kind.to_u8(), id);
    }
    assert_eq!(MessageId::from(9), Err(TorrentError::UnknownMessageId { id: 9 }));
    assert_eq!(MessageId::from(255), Err(TorrentError::UnknownMessageId { id: 255 }));
}

#[test]
fn message_frame() {
    let m = PeerMessage::new(MessageId::Request, vec![1, 2, 3]);
    assert_eq!(m.length, [0, 0, 0, 4]);
    assert_eq!(m.message_id, [6]);
    assert_eq!(m.to_bytes(), vec![0, 0, 0, 4, 6, 1, 2, 3]);
    let interested = PeerMessage::new(MessageId::Interested, vec![]);
    assert_eq!(interested.to_bytes(), vec![0, 0, 0, 1, 2]);
    let big = PeerMessage::new(MessageId::Piece, vec![0u8; 0x01_02_03]);
    assert_eq!(big.length, [0, 1, 2, 4]);
}

#[test]
fn message_from_id_and_payload() {
    let m = PeerMessage::from_bytes(&[5, 0xff, 0x80]).unwrap();
    assert_eq!(m.length, [0, 0, 0, 3]);
    assert_eq!(m.message_id, [5]);
    assert_eq!(m.payload, vec![0xff, 0x80]);
    assert_eq!(m.to_bytes(), vec![0, 0, 0, 3, 5, 0xff, 0x80]);
    assert_eq!(PeerMessage::from_bytes(&[]).unwrap_err(), TorrentError::ShortRead);
}

#[test]
fn reads_frames_from_a_buffer() {
    assert!(matches!(read_frame(&[0, 0, 0]), Ok((Frame::Incomplete, 0))));
    assert!(matches!(read_frame(&[0, 0, 0, 0, 9]), Ok((Frame::KeepAlive, 4))));
    assert!(matches!(read_frame(&[0, 0, 0, 3, 5, 1]), Ok((Frame::Incomplete, 0))));
    match read_frame(&[0, 0, 0, 3, 5, 1, 2, 0, 0]) {
        Ok((Frame::Message { id, payload }, used)) => {
            assert_eq!(id, MessageId::Bitfield);
            assert_eq!(payload, vec![1, 2]);
            assert_eq!(used, 7);
        }
        other => panic!("unexpected {:?}", other),
    }
    match read_frame(&[0, 0, 0, 1, 1]) {
        Ok((Frame::Message { id, payload }, used)) => {
            assert_eq!(id, MessageId::Unchoke);
            assert!(payload.is_empty());
            assert_eq!(used, 5);
        }
        other => panic!("unexpected {:?}", other),
    }
    assert_eq!(
        read_frame(&[0, 0, 0, 1, 11]).unwrap_err(),
        TorrentError::UnknownMessageId { id: 11 }
    );
}

#[test]
fn written_frame_is_read_back() {
    let bytes = PeerMessage::new(MessageId::Have, vec![0, 0, 1, 2]).to_bytes();
    match read_frame(&bytes) {
        Ok((Frame::Message { id, payload }, used)) => {
            assert_eq!(id, MessageId::Have);
            assert_eq!(payload, vec![0, 0, 1, 2]);
            assert_eq!(used, bytes.len());
        }
        other => panic!("unexpected {:?}", other),
    }
}

#[test]
fn request_payload_bytes() {
    let r = RequestPayload::new(1, 0x4000, 0x1234);
    assert_eq!(r.to_bytes(), vec![0, 0, 0, 1, 0, 0, 0x40, 0, 0, 0, 0x12, 0x34]);
    assert_eq!(RequestPayload::from_bytes(&r.to_bytes()), Ok(r));
    let max = RequestPayload::new(u32::MAX, 0x0102_0304, 0);
    assert_eq!(max.to_bytes(), vec![255, 255, 255, 255, 1, 2, 3, 4, 0, 0, 0, 0]);
    assert_eq!(RequestPayload::from_bytes(&[0u8; 11]), Err(TorrentError::ShortRead));
    assert_eq!(RequestPayload::from_bytes(&[0u8; 13]), Err(TorrentError::ShortRead));
}

#[test]
fn piece_payload_bytes() {
    let p = PiecePayload::from_bytes(&[0, 0, 0, 2, 0, 0, 0x40, 0, 9, 8, 7]).unwrap();
    assert_eq!(p.index, 2);
    assert_eq!(p.begin, 0x4000);
    assert_eq!(p.block, vec![9, 8, 7]);
    let empty = PiecePayload::from_bytes(&[0xff, 0, 0, 0, 0, 0, 0, 1]).unwrap();
    assert_eq!(empty.index, 0xff00_0000);
    assert_eq!(empty.begin, 1);
    assert!(empty.block.is_empty());
    assert_eq!(PiecePayload::from_bytes(&[0u8; 7]).unwrap_err(), TorrentError::ShortRead);
}

#[test]
fn extension_handshake_bytes() {
    let payload = ExtensionPayload::new(0, ExtensionPayloadData::new(ExtensionPayloadDataM::new(21)));
    let mut expected = vec![0u8];
    expected.extend_from_slice(b"d1:md11:ut_metadatai21eee");
    assert_eq!(payload.to_bytes(), expected);
    assert_eq!(ExtensionPayload::from_bytes(&expected), Ok(payload));
    assert_eq!(ExtensionPayloadDataM::new(0x0102_0304).to_bytes(), vec![1, 2, 3, 4]);
}

#[test]
fn extension_handshake_with_other_entries() {
    let body = b"d1:md11:ut_metadatai2e6:ut_pexi1ee13:metadata_sizei132e1:v4:teste";
    let data = ExtensionPayloadData::from_bytes(body).unwrap();
    assert_eq!(data.m.ut_metadata, 2);
    let m = ExtensionPayloadDataM::from_bytes(b"d6:ut_pexi1e11:ut_metadatai7ee").unwrap();
    assert_eq!(m.ut_metadata, 7);
}

#[test]
fn extension_handshake_that_is_wrong() {
    assert_eq!(ExtensionPayload::from_bytes(&[]), Err(TorrentError::ShortRead));
    assert_eq!(
        ExtensionPayloadData::from_bytes(b"d1:xi1ee"),
        Err(TorrentError::PeerMisbehaved)
    );
    assert_eq!(
        ExtensionPayloadData::from_bytes(b"d1:md11:ut_metadata1:aee"),
        Err(TorrentError::PeerMisbehaved)
    );
    assert_eq!(
        ExtensionPayloadData::from_bytes(b"d1:md11:ut_metadatai-1eee"),
        Err(TorrentError::PeerMisbehaved)
    );
    assert!(matches!(
        ExtensionPayloadData::from_bytes(b"d1:m"),
        Err(TorrentError::MalformedBencode { offset: 4, .. })
    ));
}
