use bittorrent::client::{Client, Decision, FetchedData, PieceStatus};
use bittorrent::errors::TorrentError;
use bittorrent::peer::Peer;
use bittorrent::torrent::{Info, Torrent};
use bittorrent::tracker::PeerEndpoint;
use sha1::{Digest, Sha1};

fn content(length: usize) -> Vec<u8> {
    (0..length).map(|i| (i * 31 % 251) as u8).collect()
}

fn torrent_for(file: &[u8], piece_length: usize) -> Torrent {
    let mut pieces = Vec::new();
    for chunk in file.chunks(piece_length) {
        pieces.extend_from_slice(&Sha1::digest(chunk));
    }
    Torrent::new(
        "http://tracker/announce".to_string(),
        Info {
            name: "file".to_string(),
            length: file.len() as u32,
            piece_length: piece_length as u32,
            pieces,
        },
    )
}

fn peer(n: u8, bitfield: &[u8]) -> Peer {
    Peer::new(PeerEndpoint { ip: [10, 0, 0, n], port: 6881 }, bitfield.to_vec())
}

#[test]
fn fetched_data_holds_what_it_is_given() {
    let fetched = FetchedData::new(3, vec![1, 2, 3]);
    assert_eq!(fetched.piece_index, 3);
    assert_eq!(fetched.data, vec![1, 2, 3]);
}

#[test]
fn lays_out_the_pieces() {
    let file = content(2500);
    let client = Client::new(torrent_for(&file, 1000), None);
    assert_eq!(client.pieces.len(), 3);
    for (i, chunk) in file.chunks(1000).enumerate() {
        assert_eq!(client.pieces[i].index, i);
        assert_eq!(client.pieces[i].length as usize, chunk.len());
        assert_eq!(client.pieces[i].hash[..], Sha1::digest(chunk)[..]);
    }
    assert_eq!(client.pieces[2].length, 500);
    assert_eq!(client.status, vec![PieceStatus::Pending; 3]);
    assert_eq!(client.failures, vec![0; 3]);
}

#[test]
fn finds_the_peers_that_have_each_piece() {
    let file = content(2500);
    let mut client = Client::new(torrent_for(&file, 1000), None);
    assert_eq!(client.add_peer(peer(0, &[0b1010_0000])), 0);
    assert_eq!(client.add_peer(peer(1, &[0b0110_0000])), 1);
    assert_eq!(client.add_peer(peer(2, &[0b1111_1111])), 2);
    assert_eq!(client.add_peer(peer(3, &[])), 3);
    client.init_piece_peers();
    assert_eq!(client.piece_peers, vec![vec![0, 2], vec![1, 2], vec![0, 1, 2]]);
}

#[test]
fn download_without_peers_is_given_up() {
    let file = content(2500);
    let mut client = Client::new(torrent_for(&file, 1000), None);
    client.init_piece_peers();
    assert_eq!(client.next_action(), Decision::Abort { index: 0 });
    let mut client = Client::new(torrent_for(&file, 1000), None);
    client.add_peer(peer(0, &[0b1010_0000]));
    client.init_piece_peers();
    assert_eq!(client.next_action(), Decision::Abort { index: 1 });
}

#[test]
fn empty_file_is_finished_at_once() {
    let mut client = Client::new(torrent_for(&[], 1000), None);
    assert_eq!(client.pieces.len(), 0);
    assert_eq!(client.next_action(), Decision::Finished);
    assert_eq!(client.assemble(), Some(vec![]));
}

#[test]
fn downloads_all_pieces_and_puts_them_together() {
    let file = content(2500);
    let torrent = torrent_for(&file, 1000);
    let mut client = Client::new(torrent.clone(), None);
    client.add_peer(peer(0, &[0b1110_0000]));
    client.add_peer(peer(1, &[0b1110_0000]));
    client.init_piece_peers();
    assert_eq!(client.assemble(), None);
    // pieces go out in order, the peers take turns
    assert_eq!(client.next_action(), Decision::Dispatch { piece: 0, peer: 0 });
    assert_eq!(client.next_action(), Decision::Dispatch { piece: 1, peer: 1 });
    assert_eq!(client.next_action(), Decision::Dispatch { piece: 2, peer: 0 });
    assert_eq!(client.next_action(), Decision::Wait);
    assert_eq!(client.status[1], PieceStatus::InFlight { peer: 1 });
    // pieces come back in any order
    assert_eq!(client.piece_done(2, file[2000..].to_vec()), Ok(()));
    assert_eq!(client.piece_done(0, file[..1000].to_vec()), Ok(()));
    assert_eq!(client.assemble(), None);
    assert!(!client.is_finished());
    assert_eq!(client.next_action(), Decision::Wait);
    assert_eq!(client.piece_done(1, file[1000..2000].to_vec()), Ok(()));
    assert!(client.is_finished());
    assert_eq!(client.next_action(), Decision::Finished);
    let out = client.assemble().unwrap();
    assert_eq!(out, file);
    // the output has the length and the digests that the torrent names
    assert_eq!(out.len() as u32, torrent.info.length);
    for (i, chunk) in out.chunks(1000).enumerate() {
        assert_eq!(Sha1::digest(chunk)[..], torrent.get_piece_hash(i)[..]);
    }
}

#[test]
fn at_most_five_pieces_are_out() {
    let file = content(900);
    let mut client = Client::new(torrent_for(&file, 100), None);
    client.add_peer(peer(0, &[0xff, 0x80]));
    client.init_piece_peers();
    for i in 0..5 {
        assert_eq!(client.next_action(), Decision::Dispatch { piece: i, peer: 0 });
    }
    assert_eq!(client.next_action(), Decision::Wait);
    assert_eq!(client.piece_done(3, file[300..400].to_vec()), Ok(()));
    assert_eq!(client.next_action(), Decision::Dispatch { piece: 5, peer: 0 });
    assert_eq!(client.next_action(), Decision::Wait);
    client.piece_failed(0);
    assert_eq!(client.next_action(), Decision::Dispatch { piece: 0, peer: 0 });
}

#[test]
fn only_the_wanted_piece_is_fetched() {
    let file = content(2500);
    let mut client = Client::new(torrent_for(&file, 1000), Some(1));
    client.add_peer(peer(0, &[0b0100_0000]));
    client.init_piece_peers();
    assert_eq!(client.next_action(), Decision::Dispatch { piece: 1, peer: 0 });
    assert_eq!(client.next_action(), Decision::Wait);
    assert_eq!(client.piece_done(1, file[1000..2000].to_vec()), Ok(()));
    assert_eq!(client.next_action(), Decision::Finished);
    assert_eq!(client.assemble(), Some(file[1000..2000].to_vec()));
}

#[test]
fn wanted_piece_that_does_not_exist() {
    let file = content(2500);
    let mut client = Client::new(torrent_for(&file, 1000), Some(3));
    client.add_peer(peer(0, &[0xff]));
    client.init_piece_peers();
    assert_eq!(client.next_action(), Decision::Finished);
    assert_eq!(client.assemble(), Some(vec![]));
}

#[test]
fn bytes_with_the_wrong_digest_or_length_are_refused() {
    let file = content(2500);
    let mut client = Client::new(torrent_for(&file, 1000), None);
    client.add_peer(peer(0, &[0xff]));
    client.add_peer(peer(1, &[0xff]));
    client.init_piece_peers();
    assert_eq!(client.next_action(), Decision::Dispatch { piece: 0, peer: 0 });
    let mut wrong = file[..1000].to_vec();
    wrong[999] ^= 1;
    assert_eq!(client.piece_done(0, wrong), Err(TorrentError::PieceHashMismatch));
    assert_eq!(client.status[0], PieceStatus::Pending);
    assert_eq!(client.failures[0], 1);
    assert!(client.fetched_data[0].is_none());
    // the piece goes to the next peer
    assert_eq!(client.next_action(), Decision::Dispatch { piece: 0, peer: 1 });
    assert_eq!(client.piece_done(0, file[..999].to_vec()), Err(TorrentError::PieceHashMismatch));
    assert_eq!(client.failures[0], 2);
    assert_eq!(client.next_action(), Decision::Dispatch { piece: 0, peer: 0 });
    assert_eq!(client.piece_done(0, file[..1000].to_vec()), Ok(()));
    assert_eq!(client.status[0], PieceStatus::Done);
    assert_eq!(client.failures[0], 2);
}

#[test]
fn piece_that_fails_three_times_ends_the_download() {
    let file = content(2500);
    let mut client = Client::new(torrent_for(&file, 1000), None);
    client.add_peer(peer(0, &[0xff]));
    client.add_peer(peer(1, &[0xff]));
    client.init_piece_peers();
    assert_eq!(client.next_action(), Decision::Dispatch { piece: 0, peer: 0 });
    assert_eq!(client.next_action(), Decision::Dispatch { piece: 1, peer: 1 });
    client.piece_failed(1);
    assert_eq!(client.next_action(), Decision::Dispatch { piece: 1, peer: 0 });
    client.piece_failed(1);
    assert_eq!(client.next_action(), Decision::Dispatch { piece: 1, peer: 1 });
    assert_eq!(client.piece_done(1, vec![0; 1000]), Err(TorrentError::PieceHashMismatch));
    assert_eq!(client.failures[1], 3);
    assert_eq!(client.next_action(), Decision::Abort { index: 1 });
    assert_eq!(client.next_action(), Decision::Abort { index: 1 });
    assert_eq!(client.assemble(), None);
}

#[test]
fn reports_for_pieces_that_are_not_out_change_nothing() {
    let file = content(2500);
    let mut client = Client::new(torrent_for(&file, 1000), None);
    client.add_peer(peer(0, &[0xff]));
    client.init_piece_peers();
    assert_eq!(client.piece_done(0, file[..1000].to_vec()), Err(TorrentError::PeerMisbehaved));
    assert_eq!(client.piece_done(7, vec![]), Err(TorrentError::PeerMisbehaved));
    client.piece_failed(0);
    client.piece_failed(7);
    assert_eq!(client.status, vec![PieceStatus::Pending; 3]);
    assert_eq!(client.failures, vec![0; 3]);
    assert_eq!(client.next_action(), Decision::Dispatch { piece: 0, peer: 0 });
    assert_eq!(client.piece_done(0, file[..1000].to_vec()), Ok(()));
    // a piece that is done is not taken again
    assert_eq!(client.piece_done(0, file[..1000].to_vec()), Err(TorrentError::PeerMisbehaved));
    client.piece_failed(0);
    assert_eq!(client.status[0], PieceStatus::Done);
}

#[test]
fn the_same_pieces_give_the_same_output() {
    let file = content(2500);
    let mut outputs = Vec::new();
    for order in [[0usize, 1, 2], [2, 0, 1]] {
        let mut client = Client::new(torrent_for(&file, 1000), None);
        client.add_peer(peer(0, &[0xff]));
        client.init_piece_peers();
        for _ in 0..3 {
            client.next_action();
        }
        for i in order {
            let end = (i * 1000 + 1000).min(file.len());
            assert_eq!(client.piece_done(i, file[i * 1000..end].to_vec()), Ok(()));
        }
        outputs.push(client.assemble().unwrap());
    }
    assert_eq!(outputs[0], outputs[1]);
    assert_eq!(outputs[0], file);
}

#[test]
fn giving_up_names_the_piece() {
    assert_eq!(
        Decision::Abort { index: 4 }.error(),
        Some(TorrentError::PieceUnrecoverable { index: 4 })
    );
    assert_eq!(Decision::Wait.error(), None);
    assert_eq!(Decision::Finished.error(), None);
    assert_eq!(Decision::Dispatch { piece: 1, peer: 2 }.error(), None);
}

#[test]
fn engine_knows_whether_it_is_sound() {
    let file = content(2500);
    let mut client = Client::new(torrent_for(&file, 1000), None);
    assert!(client.is_well_formed());
    client.add_peer(peer(0, &[0xff]));
    client.init_piece_peers();
    client.next_action();
    assert_eq!(client.piece_done(0, file[..1000].to_vec()), Ok(()));
    assert!(client.is_well_formed());
    // a peer that does not exist
    client.piece_peers[1].push(5);
    assert!(!client.is_well_formed());
    client.piece_peers[1].pop();
    assert!(client.is_well_formed());
    // a piece that is said to be done and is not held
    client.status[2] = PieceStatus::Done;
    assert!(!client.is_well_formed());
    client.status[2] = PieceStatus::Pending;
    // a piece that is not the torrent's
    client.pieces[1].length += 1;
    assert!(!client.is_well_formed());
    client.pieces[1].length -= 1;
    client.pieces[1].hash[3] ^= 1;
    assert!(!client.is_well_formed());
    client.pieces[1].hash[3] ^= 1;
    assert!(client.is_well_formed());
    // a table that is too short
    client.failures.pop();
    assert!(!client.is_well_formed());
}
