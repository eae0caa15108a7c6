use bittorrent::bencode::json::jsonify;
use bittorrent::bencode::{decode_bencoded_value as decode, BencodeValue, DictEntry};
use bittorrent::errors::{BencodeReason, TorrentError};
use bittorrent::handler::{
    decode_bencoded_value, get_info, handshake, handshake_handler, peer_id_line, peers,
};

#[test]
fn decode_prints_a_string() {
    assert_eq!(decode_bencoded_value("4:spam").unwrap(), "\"spam\"");
}

#[test]
fn decode_prints_a_number() {
    assert_eq!(decode_bencoded_value("i-42e").unwrap(), "-42");
    assert_eq!(decode_bencoded_value("i0e").unwrap(), "0");
    assert_eq!(
        decode_bencoded_value("i-9223372036854775808e").unwrap(),
        "-9223372036854775808"
    );
}

#[test]
fn decode_prints_a_list() {
    assert_eq!(decode_bencoded_value("l4:spami3ee").unwrap(), "[\"spam\",3]");
    assert_eq!(decode_bencoded_value("le").unwrap(), "[]");
    assert_eq!(decode_bencoded_value("llei1eli2eee").unwrap(), "[[],1,[2]]");
}

#[test]
fn decode_prints_a_dictionary() {
    assert_eq!(
        decode_bencoded_value("d3:cow3:moo4:spam4:eggse").unwrap(),
        "{\"cow\":\"moo\",\"spam\":\"eggs\"}"
    );
    assert_eq!(decode_bencoded_value("de").unwrap(), "{}");
    assert_eq!(
        decode_bencoded_value("d1:bi1e1:ad1:xleee").unwrap(),
        "{\"a\":{\"x\":[]},\"b\":1}"
    );
}

#[test]
fn decode_escapes_text() {
    assert_eq!(decode_bencoded_value("6:a\"b\\c\n").unwrap(), "\"a\\\"b\\\\c\\n\"");
    assert_eq!(decode_bencoded_value("2:é").unwrap(), "\"é\"");
}

#[test]
fn bytes_that_are_no_text_are_shown_with_replacement_characters() {
    let value = BencodeValue::Dict(vec![DictEntry {
        key: vec![b'k', 0xff],
        value: BencodeValue::Bytes(vec![0xc3, b'a']),
    }]);
    assert_eq!(jsonify(&value), "{\"k\u{fffd}\":\"\u{fffd}a\"}");
    let (value, _) = decode(b"2:ok").unwrap();
    assert_eq!(jsonify(&value), "\"ok\"");
}

#[test]
fn decode_reports_malformed_input() {
    assert_eq!(
        decode_bencoded_value("5:spam").unwrap_err(),
        TorrentError::MalformedBencode { offset: 6, reason: BencodeReason::UnexpectedEnd }
    );
    assert_eq!(
        decode_bencoded_value("spam").unwrap_err(),
        TorrentError::MalformedBencode { offset: 0, reason: BencodeReason::UnexpectedByte }
    );
}

fn sample_torrent_bytes() -> Vec<u8> {
    let announce = "http://bittorrent-test-tracker.codecrafters.io/announce";
    let mut bytes = format!(
        "d8:announce{}:{}10:created by13:mktorrent 1.14:infod6:lengthi92063e4:name10:sample.txt12:piece lengthi32768e6:pieces60:",
        announce.len(),
        announce
    )
    .into_bytes();
    for h in [
        "e876f67a2a8886e8f36b136726c30fa29703022d",
        "6e2275e604a0766656736e81ff10b55204ad8d35",
        "f00d937a0213df1982bc8d097227ad9e909acc17",
    ] {
        bytes.extend(hex::decode(h).unwrap());
    }
    bytes.extend_from_slice(b"ee");
    bytes
}

#[test]
fn info_of_the_sample_torrent() {
    assert_eq!(
        get_info(&sample_torrent_bytes()).unwrap(),
        vec![
            "Tracker URL: http://bittorrent-test-tracker.codecrafters.io/announce",
            "Length: 92063",
            "Info Hash: d69f91e6b2ae4c542468d1073a71d4ea13879a7f",
            "Piece Length: 32768",
            "Piece Hashes:",
            "e876f67a2a8886e8f36b136726c30fa29703022d",
            "6e2275e604a0766656736e81ff10b55204ad8d35",
            "f00d937a0213df1982bc8d097227ad9e909acc17",
        ]
    );
    assert_eq!(get_info(b"d4:infodee").unwrap_err(), TorrentError::MalformedMetainfo);
    assert!(matches!(get_info(b"d4:info").unwrap_err(), TorrentError::MalformedBencode { .. }));
}

#[test]
fn peers_of_a_tracker_response() {
    let mut body = b"d8:intervali60e5:peers12:".to_vec();
    body.extend_from_slice(&[165, 232, 33, 77, 0xc9, 0x0b, 178, 62, 85, 20, 0xc9, 0x0c]);
    body.push(b'e');
    assert_eq!(peers(&body).unwrap(), vec!["165.232.33.77:51467", "178.62.85.20:51468"]);
    assert_eq!(peers(b"de").unwrap_err(), TorrentError::TrackerMalformed);
}

#[test]
fn handshake_prints_the_peer_id() {
    let hash = [7u8; 20];
    let mut reply = vec![19u8];
    reply.extend_from_slice(b"BitTorrent protocol");
    reply.extend_from_slice(&[0u8; 8]);
    reply.extend_from_slice(&hash);
    reply.extend_from_slice(&[0x0a, 0xff, 0, 1, 2, 3, 4, 5, 6, 7, 8, 9, 10, 11, 12, 13, 14, 15, 16, 0xab]);
    assert_eq!(
        handshake_handler(&reply, &hash).unwrap(),
        "Peer ID: 0aff000102030405060708090a0b0c0d0e0f10ab"
    );
    assert_eq!(handshake_handler(&reply, &[8u8; 20]).unwrap_err(), TorrentError::HandshakeRejected);
    assert_eq!(handshake_handler(&reply[..60], &hash).unwrap_err(), TorrentError::ShortRead);
}

#[test]
fn object_holds_one_member_for_a_key_the_last() {
    assert_eq!(decode_bencoded_value("d1:ai1e1:ai2ee").unwrap(), "{\"a\":2}");
    assert_eq!(
        decode_bencoded_value("d1:bi1e1:ai2e1:bi3e1:ai4e1:ci5ee").unwrap(),
        "{\"a\":4,\"b\":3,\"c\":5}"
    );
    assert_eq!(
        decode_bencoded_value("d1:kd1:xi1e1:xi2ee1:kle1:k1:ve").unwrap(),
        "{\"k\":\"v\"}"
    );
    assert_eq!(decode_bencoded_value("ld1:ai1e1:ai2eed1:ai3eee").unwrap(), "[{\"a\":2},{\"a\":3}]");
}

#[test]
fn lines_of_a_handshake() {
    let id: [u8; 20] = [0x2d, 0x52, 0x4e, 0x30, 0x2e, 0x30, 0x2e, 0x30, 0x2d, 0, 1, 2, 3, 4, 5, 6, 7, 8, 9, 0xff];
    assert_eq!(peer_id_line(&id), "Peer ID: 2d524e302e302e302d00010203040506070809ff");
    assert_eq!(
        handshake(&id, 123),
        vec![
            "Peer ID: 2d524e302e302e302d00010203040506070809ff",
            "Peer Metadata Extension ID: 123"
        ]
    );
    assert_eq!(handshake(&id, 0)[1], "Peer Metadata Extension ID: 0");
}
