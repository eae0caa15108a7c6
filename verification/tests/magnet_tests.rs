use bittorrent::errors::TorrentError;
use bittorrent::handler::parse;
use bittorrent::magnet::MagnetLink;

const HASH: &str = "ad42ce8109f54c99613ce38f9b4d87e70f24a165";

#[test]
fn reads_a_magnet_link() {
    let link = MagnetLink::from(
        "magnet:?xt=urn:btih:ad42ce8109f54c99613ce38f9b4d87e70f24a165&dn=x&tr=http%3A%2F%2Ftracker%2Fannounce",
    )
    .unwrap();
    assert_eq!(link.info_hash, HASH);
    assert_eq!(link.tracker_url.as_deref(), Some("http://tracker/announce"));
    assert_eq!(link.display_name.as_deref(), Some("x"));
    assert_eq!(link.get_info_hash().unwrap().to_vec(), hex::decode(HASH).unwrap());
}

#[test]
fn magnet_parse_prints_hash_and_tracker() {
    let lines = parse(
        "magnet:?xt=urn:btih:ad42ce8109f54c99613ce38f9b4d87e70f24a165&dn=x&tr=http%3A%2F%2Ftracker%2Fannounce",
    )
    .unwrap();
    assert_eq!(
        lines,
        vec![
            "Info Hash: ad42ce8109f54c99613ce38f9b4d87e70f24a165",
            "Tracker URL: http://tracker/announce"
        ]
    );
    let lines = parse(&format!("magnet:?xt=urn:btih:{}", HASH)).unwrap();
    assert_eq!(lines, vec![format!("Info Hash: {}", HASH)]);
    assert_eq!(parse("magnet:?dn=x").unwrap_err(), TorrentError::MagnetMalformed);
}

#[test]
fn magnet_with_the_hash_alone() {
    let link = MagnetLink::from(&format!("magnet:?xt=urn:btih:{}", HASH)).unwrap();
    assert_eq!(link.info_hash, HASH);
    assert_eq!(link.tracker_url, None);
    assert_eq!(link.display_name, None);
}

#[test]
fn magnet_parameters_in_any_order_and_unknown_ones() {
    let link = MagnetLink::from(&format!(
        "magnet:?x.pe=1.2.3.4%3A5&&novalue&tr=udp%3A%2F%2Fa&dn=My%20File&xt=urn:btih:{}&tr=http%3A%2F%2Fb%3Fq%3D1&",
        HASH.to_uppercase()
    ))
    .unwrap();
    assert_eq!(link.info_hash, HASH.to_uppercase());
    assert_eq!(link.tracker_url.as_deref(), Some("http://b?q=1"));
    assert_eq!(link.display_name.as_deref(), Some("My File"));
    assert_eq!(link.get_info_hash().unwrap().to_vec(), hex::decode(HASH).unwrap());
}

#[test]
fn magnet_value_may_hold_equal_signs_and_broken_escapes() {
    let link =
        MagnetLink::from(&format!("magnet:?xt=urn:btih:{}&dn=a=b%zz%4&tr=%E4%F6", HASH)).unwrap();
    assert_eq!(link.display_name.as_deref(), Some("a=b%zz%4"));
    // the tracker, once decoded, is no text: it is passed over
    assert_eq!(link.tracker_url, None);
    let link = MagnetLink::from(&format!("magnet:?xt=urn:btih:{}&dn=%E4%F6", HASH)).unwrap();
    // the name is kept as it stands where what it decodes to is no text
    assert_eq!(link.display_name.as_deref(), Some("%E4%F6"));
}

#[test]
fn rejects_what_is_no_magnet_link() {
    let bad = [
        "",
        "magnet:",
        "magnet:?",
        "http://example.com",
        "Magnet:?xt=urn:btih:ad42ce8109f54c99613ce38f9b4d87e70f24a165",
        "magnet:?dn=x&tr=y",
        "magnet:?xt=urn:btih:ad42",
        "magnet:?xt=urn:btih:zd42ce8109f54c99613ce38f9b4d87e70f24a165",
        "magnet:?xt=urn:btih:ad42ce8109f54c99613ce38f9b4d87e70f24a1650",
        "magnet:?xt=urn:sha1:ad42ce8109f54c99613ce38f9b4d87e70f24a165",
        "magnet:?xt=ad42ce8109f54c99613ce38f9b4d87e70f24a165",
    ];
    for link in bad {
        assert_eq!(MagnetLink::from(link).unwrap_err(), TorrentError::MagnetMalformed, "{}", link);
    }
}

#[test]
fn info_hash_of_a_link_made_by_hand() {
    let link = MagnetLink {
        info_hash: "00ff".to_string(),
        tracker_url: None,
        display_name: None,
    };
    assert_eq!(link.get_info_hash(), Err(TorrentError::MagnetMalformed));
    let link = MagnetLink {
        info_hash: "0123456789abcdefABCDEF0123456789abcdefAB".to_string(),
        tracker_url: None,
        display_name: None,
    };
    assert_eq!(
        link.get_info_hash().unwrap(),
        [
            0x01, 0x23, 0x45, 0x67, 0x89, 0xab, 0xcd, 0xef, 0xab, 0xcd, 0xef, 0x01, 0x23, 0x45,
            0x67, 0x89, 0xab, 0xcd, 0xef, 0xab
        ]
    );
}

#[test]
fn magnet_link_names_the_info_hash_of_the_torrent() {
    // the sample torrent and the magnet link made for it
    let mut file = b"d8:announce3:url4:infod6:lengthi92063e4:name10:sample.txt12:piece lengthi32768e6:pieces60:".to_vec();
    for h in [
        "e876f67a2a8886e8f36b136726c30fa29703022d",
        "6e2275e604a0766656736e81ff10b55204ad8d35",
        "f00d937a0213df1982bc8d097227ad9e909acc17",
    ] {
        file.extend(hex::decode(h).unwrap());
    }
    file.extend_from_slice(b"ee");
    let torrent = bittorrent::torrent::Torrent::from_bytes(&file).unwrap();
    let link =
        MagnetLink::from("magnet:?xt=urn:btih:d69f91e6b2ae4c542468d1073a71d4ea13879a7f").unwrap();
    assert_eq!(link.get_info_hash().unwrap(), torrent.get_info_hash());
}

#[test]
fn percent_escapes_in_a_magnet_link() {
    let link = MagnetLink::from(&format!(
        "magnet:?xt=urn:btih:{}&dn=%41%4a%4A%7e%2525%%41%4&tr=a%2Fb%2fc%3a%3A",
        HASH
    ))
    .unwrap();
    assert_eq!(link.display_name.as_deref(), Some("AJJ~%25%A%4"));
    assert_eq!(link.tracker_url.as_deref(), Some("a/b/c::"));
}
