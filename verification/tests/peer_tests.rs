use bittorrent::peer::{check_bitfield, has_piece, Peer};
use bittorrent::tracker::PeerEndpoint;

fn peer(bitfield: &[u8]) -> Peer {
    Peer::new(PeerEndpoint { ip: [1, 2, 3, 4], port: 5 }, bitfield.to_vec())
}

#[test]
fn high_bit_of_the_first_byte_is_piece_zero() {
    let p = peer(&[0b1000_0000]);
    assert!(p.has_index(8, 0));
    for i in 1..8 {
        assert!(!p.has_index(8, i));
    }
    let p = peer(&[0b0000_0001, 0b0100_0000]);
    assert!(p.has_index(16, 7));
    assert!(p.has_index(16, 9));
    assert!(!p.has_index(16, 8));
    assert!(!p.has_index(16, 15));
}

#[test]
fn lookup_agrees_with_every_bit() {
    let bitfield = [0b1010_0110u8, 0b0000_1111, 0xff, 0x00, 0b0101_0101];
    let count = bitfield.len() * 8;
    for i in 0..count {
        let expected = (bitfield[i / 8] >> (7 - i % 8)) & 1 == 1;
        assert_eq!(has_piece(&bitfield, count, i), expected, "bit {}", i);
        assert_eq!(peer(&bitfield).has_index(count, i), expected, "bit {}", i);
    }
}

#[test]
fn pieces_beyond_the_bitfield_are_absent() {
    let p = peer(&[0xff]);
    assert!(p.has_index(2000, 7));
    assert!(!p.has_index(2000, 8));
    assert!(!p.has_index(2000, 1000));
    assert!(!p.has_index(usize::MAX, usize::MAX - 1));
    assert!(!p.has_index(usize::MAX, usize::MAX));
    assert!(!peer(&[]).has_index(1, 0));
}

#[test]
fn bits_beyond_the_piece_count_are_absent() {
    let bitfield = [0xffu8, 0xff];
    for i in 0..16 {
        assert_eq!(has_piece(&bitfield, 11, i), i < 11, "piece {}", i);
        assert_eq!(peer(&bitfield).has_index(11, i), i < 11, "piece {}", i);
    }
    assert!(!has_piece(&bitfield, 0, 0));
    assert!(!peer(&bitfield).has_index(0, 0));
}

#[test]
fn spare_bit_of_a_seven_piece_torrent_is_no_piece() {
    let p = peer(&[0x01]);
    assert!(!p.has_index(7, 7));
    for i in 0..7 {
        assert!(!p.has_index(7, i));
    }
    // the same bit is a piece where the torrent has eight
    assert!(p.has_index(8, 7));
    let p = peer(&[0xff]);
    for i in 0..7 {
        assert!(p.has_index(7, i));
    }
    assert!(!p.has_index(7, 7));
    assert!(!p.has_index(7, 8));
}

#[test]
fn well_formed_bitfields() {
    assert!(check_bitfield(&[], 0));
    assert!(check_bitfield(&[0xff], 8));
    assert!(check_bitfield(&[0xfe], 7));
    assert!(check_bitfield(&[0x00], 1));
    assert!(check_bitfield(&[0x80], 1));
    assert!(check_bitfield(&[0xff, 0b1110_0000], 11));
    // a spare bit is set
    assert!(!check_bitfield(&[0xff], 7));
    assert!(!check_bitfield(&[0x01], 7));
    assert!(!check_bitfield(&[0x40], 1));
    assert!(!check_bitfield(&[0xff, 0b1111_0000], 11));
    assert!(!check_bitfield(&[0xff, 0b1110_0001], 11));
    // the wrong length
    assert!(!check_bitfield(&[], 1));
    assert!(!check_bitfield(&[0], 0));
    assert!(!check_bitfield(&[0, 0], 8));
    assert!(!check_bitfield(&[0], 9));
}
