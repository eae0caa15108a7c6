use bittorrent::errors::{BencodeReason, TorrentError};
use bittorrent::torrent::{Info, Torrent};

const ANNOUNCE: &str = "http://bittorrent-test-tracker.codecrafters.io/announce";

const PIECE_HASHES: [&str; 3] = [
    "e876f67a2a8886e8f36b136726c30fa29703022d",
    "6e2275e604a0766656736e81ff10b55204ad8d35",
    "f00d937a0213df1982bc8d097227ad9e909acc17",
];

fn sample_pieces() -> Vec<u8> {
    let mut pieces = Vec::new();
    for h in PIECE_HASHES {
        pieces.extend(hex::decode(h).unwrap());
    }
    pieces
}

fn sample_info_bytes() -> Vec<u8> {
    let mut bytes = b"d6:lengthi92063e4:name10:sample.txt12:piece lengthi32768e6:pieces60:".to_vec();
    bytes.extend(sample_pieces());
    bytes.push(b'e');
    bytes
}

fn sample_torrent_bytes() -> Vec<u8> {
    let mut bytes = format!("d8:announce{}:{}10:created by13:mktorrent 1.14:info", ANNOUNCE.len(), ANNOUNCE)
        .into_bytes();
    bytes.extend(sample_info_bytes());
    bytes.push(b'e');
    bytes
}

#[test]
fn reads_the_sample_metainfo() {
    let torrent = Torrent::from_bytes(&sample_torrent_bytes()).unwrap();
    assert_eq!(torrent.announce, ANNOUNCE);
    assert_eq!(torrent.info.name, "sample.txt");
    assert_eq!(torrent.info.length, 92063);
    assert_eq!(torrent.info.piece_length, 32768);
    assert_eq!(torrent.info.pieces, sample_pieces());
    assert_eq!(torrent.get_piece_count(), 3);
}

#[test]
fn info_hash_of_the_sample_metainfo() {
    let torrent = Torrent::from_bytes(&sample_torrent_bytes()).unwrap();
    assert_eq!(hex::encode(torrent.get_info_hash()), "d69f91e6b2ae4c542468d1073a71d4ea13879a7f");
}

#[test]
fn piece_table_of_the_sample_metainfo() {
    let torrent = Torrent::from_bytes(&sample_torrent_bytes()).unwrap();
    assert_eq!(torrent.get_piece_hashes(), PIECE_HASHES.to_vec());
    assert_eq!(torrent.get_piece_length(0), 32768);
    assert_eq!(torrent.get_piece_length(1), 32768);
    assert_eq!(torrent.get_piece_length(2), 92063 - 2 * 32768);
    assert_eq!(torrent.get_piece_hash(1).to_vec(), hex::decode(PIECE_HASHES[1]).unwrap());
}

#[test]
fn piece_lengths_add_up_to_the_file_length() {
    let torrent = Torrent::from_bytes(&sample_torrent_bytes()).unwrap();
    let mut total: u64 = 0;
    for i in 0..torrent.get_piece_count() {
        let length = torrent.get_piece_length(i);
        if i + 1 < torrent.get_piece_count() {
            assert_eq!(length, torrent.info.piece_length);
        }
        total += length as u64;
    }
    assert_eq!(total, torrent.info.length as u64);
}

#[test]
fn last_piece_is_full_when_the_length_is_a_multiple() {
    let info = Info {
        name: "full".to_string(),
        length: 64,
        piece_length: 32,
        pieces: vec![7u8; 40],
    };
    let torrent = Torrent::new("http://tracker/announce".to_string(), info);
    assert_eq!(torrent.get_piece_count(), 2);
    assert_eq!(torrent.get_piece_length(0), 32);
    assert_eq!(torrent.get_piece_length(1), 32);
}

#[test]
fn info_reencodes_to_the_bytes_it_was_read_from() {
    let info = Info::from_bytes(&sample_info_bytes()).unwrap();
    assert_eq!(info.to_bytes(), sample_info_bytes());
    assert_eq!(hex::encode(info.info_hash()), "d69f91e6b2ae4c542468d1073a71d4ea13879a7f");
}

#[test]
fn info_hash_is_the_same_every_time() {
    let a = Torrent::from_bytes(&sample_torrent_bytes()).unwrap();
    let b = Torrent::from_bytes(&sample_torrent_bytes()).unwrap();
    assert_eq!(a.get_info_hash(), b.get_info_hash());
    assert_eq!(a.get_info_hash(), a.get_info_hash());
}

fn metainfo(info: &str) -> Vec<u8> {
    format!("d8:announce3:url4:info{}e", info).into_bytes()
}

#[test]
fn rejects_metainfo_that_is_not_bencode() {
    assert_eq!(
        Torrent::from_bytes(b"d8:announce").unwrap_err(),
        TorrentError::MalformedBencode { offset: 11, reason: BencodeReason::UnexpectedEnd }
    );
}

#[test]
fn rejects_metainfo_without_its_fields() {
    let twenty = "20:aaaaaaaaaaaaaaaaaaaa";
    let good = format!("d6:lengthi10e4:name1:a12:piece lengthi16e6:pieces{}e", twenty);
    assert!(Torrent::from_bytes(&metainfo(&good)).is_ok());
    // no announce
    assert_eq!(
        Torrent::from_bytes(format!("d4:info{}e", good).as_bytes()).unwrap_err(),
        TorrentError::MalformedMetainfo
    );
    // no info
    assert_eq!(Torrent::from_bytes(b"d8:announce3:urle").unwrap_err(), TorrentError::MalformedMetainfo);
    // not a dictionary
    assert_eq!(Torrent::from_bytes(b"le").unwrap_err(), TorrentError::MalformedMetainfo);
    // pieces not whole digests
    let bad = "d6:lengthi10e4:name1:a12:piece lengthi16e6:pieces3:abce";
    assert_eq!(Torrent::from_bytes(&metainfo(bad)).unwrap_err(), TorrentError::MalformedMetainfo);
    // piece length zero
    let bad = format!("d6:lengthi10e4:name1:a12:piece lengthi0e6:pieces{}e", twenty);
    assert_eq!(Torrent::from_bytes(&metainfo(&bad)).unwrap_err(), TorrentError::MalformedMetainfo);
    // negative length
    let bad = format!("d6:lengthi-1e4:name1:a12:piece lengthi16e6:pieces{}e", twenty);
    assert_eq!(Torrent::from_bytes(&metainfo(&bad)).unwrap_err(), TorrentError::MalformedMetainfo);
    // length that needs two pieces, one digest
    let bad = format!("d6:lengthi17e4:name1:a12:piece lengthi16e6:pieces{}e", twenty);
    assert_eq!(Torrent::from_bytes(&metainfo(&bad)).unwrap_err(), TorrentError::MalformedMetainfo);
    // length zero with a piece
    let bad = format!("d6:lengthi0e4:name1:a12:piece lengthi16e6:pieces{}e", twenty);
    assert_eq!(Torrent::from_bytes(&metainfo(&bad)).unwrap_err(), TorrentError::MalformedMetainfo);
    // length above 32 bits
    let bad = format!("d6:lengthi4294967296e4:name1:a12:piece lengthi16e6:pieces{}e", twenty);
    assert_eq!(Torrent::from_bytes(&metainfo(&bad)).unwrap_err(), TorrentError::MalformedMetainfo);
    // name that is not text
    let mut bad = b"d8:announce3:url4:infod6:lengthi10e4:name1:".to_vec();
    bad.push(0xff);
    bad.extend_from_slice(format!("12:piece lengthi16e6:pieces{}ee", twenty).as_bytes());
    assert_eq!(Torrent::from_bytes(&bad).unwrap_err(), TorrentError::MalformedMetainfo);
}

#[test]
fn info_knows_whether_it_is_sound() {
    let info = |length: u32, piece_length: u32, digests: usize| Info {
        name: "n".to_string(),
        length,
        piece_length,
        pieces: vec![0u8; digests * 20],
    };
    assert!(info(0, 16, 0).is_well_formed());
    assert!(info(1, 16, 1).is_well_formed());
    assert!(info(16, 16, 1).is_well_formed());
    assert!(info(17, 16, 2).is_well_formed());
    assert!(info(u32::MAX, u32::MAX, 1).is_well_formed());
    assert!(!info(0, 16, 1).is_well_formed());
    assert!(!info(16, 16, 2).is_well_formed());
    assert!(!info(17, 16, 1).is_well_formed());
    assert!(!info(1, 0, 1).is_well_formed());
    assert!(!info(1, 16, 0).is_well_formed());
    let mut odd = info(1, 16, 1);
    odd.pieces.pop();
    assert!(!odd.is_well_formed());
}
