//! What the commands print, as text: the caller reads files and sockets,
//! hands the bytes in, and prints the lines that come back.

use vstd::prelude::*;
use vstd::string::StringExecFns;
use vstd::utf8::encode_utf8;
use crate::bencode::grammar::{field, parse_value, Parse};
use crate::bencode::json::{json_value, jsonify};
use crate::bencode::{as_error, decode_bencoded_value as decode_value};
use crate::digest::{hex_encode, hex_text, sha1_digest};
use crate::errors::TorrentError;
use crate::handshake::HandshakeMessage;
use crate::magnet::{magnet_fields, MagnetLink};
use crate::text::{decimal_string, decimal_text};
use crate::torrent::{describes_metainfo, torrent_from, Torrent};
use crate::tracker::{
    describes_response, distinct_groups, endpoint_text, group_ip, group_port, key_peers,
    parse_tracker_response, PeerEndpoint,
};

verus! {

/// The texts of a list of lines.
pub open spec fn texts(lines: Seq<String>) -> Seq<Seq<char>> {
    Seq::new(lines.len(), |i: int| lines[i]@)
}

fn labelled(label: &str, value: &str) -> (line: String)
    ensures
        line@ == label@ + value@,
{
    let mut line = String::from_str(label);
    line.append(value);
    line
}

/// The value at the start of `encoded_value`, shown as JSON.
pub fn decode_bencoded_value(encoded_value: &str) -> (res: Result<String, TorrentError>)
    ensures
        match parse_value(encode_utf8(encoded_value@), 0) {
            Parse::Done { value, end } => res matches Ok(text) && text@ == json_value(value),
            Parse::Failed { failure } => res == Err::<String, TorrentError>(as_error(failure)),
        },
{
    match decode_value(encoded_value.as_bytes()) {
        Ok((value, _)) => Ok(jsonify(&value)),
        Err(e) => Err(e),
    }
}

/// The lines that describe a torrent: the tracker, the length of the file,
/// the info hash, the piece length, and the digest of every piece.
pub open spec fn info_lines(torrent: Torrent) -> Seq<Seq<char>> {
    seq![
        "Tracker URL: "@ + torrent.announce@,
        "Length: "@ + decimal_text(torrent.info.length as nat),
        "Info Hash: "@ + hex_text(sha1_digest(torrent.info.encoding())),
        "Piece Length: "@ + decimal_text(torrent.info.piece_length as nat),
        "Piece Hashes:"@,
    ] + Seq::new(
        torrent.info.piece_count() as nat,
        |i: int| hex_text(torrent.info.piece_hash_at(i)),
    )
}

/// The lines that describe `torrent`.
pub fn describe(torrent: &Torrent) -> (lines: Vec<String>)
    ensures
        texts(lines@) == info_lines(*torrent),
{
    let mut lines: Vec<String> = Vec::new();
    lines.push(labelled("Tracker URL: ", torrent.announce.as_str()));
    lines.push(labelled("Length: ", decimal_string(torrent.info.length as u64).as_str()));
    lines.push(
        labelled("Info Hash: ", hex_encode(torrent.get_info_hash().as_slice()).as_str()),
    );
    lines.push(
        labelled("Piece Length: ", decimal_string(torrent.info.piece_length as u64).as_str()),
    );
    lines.push(String::from_str("Piece Hashes:"));
    let mut hashes = torrent.get_piece_hashes();
    let ghost head = texts(lines@);
    let ghost tail = texts(hashes@);
    lines.append(&mut hashes);
    assert(texts(lines@) =~= head + tail);
    assert(tail =~= Seq::new(
        torrent.info.piece_count() as nat,
        |i: int| hex_text(torrent.info.piece_hash_at(i)),
    ));
    assert(texts(lines@) =~= info_lines(*torrent));
    lines
}

/// Reads a metainfo file and describes the torrent.
pub fn get_info(file: &[u8]) -> (res: Result<Vec<String>, TorrentError>)
    ensures
        match parse_value(file@, 0) {
            Parse::Failed { failure } => res == Err::<Vec<String>, TorrentError>(
                as_error(failure),
            ),
            Parse::Done { value, end } => if describes_metainfo(value) {
                res matches Ok(lines) && exists|torrent: Torrent|
                    torrent_from(torrent, value) && torrent.info.well_formed() && texts(lines@)
                        == info_lines(torrent)
            } else {
                res == Err::<Vec<String>, TorrentError>(TorrentError::MalformedMetainfo)
            },
        },
{
    match Torrent::from_bytes(file) {
        Err(e) => Err(e),
        Ok(torrent) => Ok(describe(&torrent)),
    }
}

/// The peers as lines `a.b.c.d:port`.
pub fn peer_lines(peers: &Vec<PeerEndpoint>) -> (lines: Vec<String>)
    ensures
        lines@.len() == peers@.len(),
        forall|i: int|
            0 <= i < lines@.len() ==> (#[trigger] lines@[i])@ == endpoint_text(
                peers@[i].ip@,
                peers@[i].port,
            ),
{
    let mut lines: Vec<String> = Vec::new();
    let mut i: usize = 0;
    while i < peers.len()
        invariant
            i <= peers.len(),
            lines@.len() == i,
            forall|j: int|
                0 <= j < i ==> (#[trigger] lines@[j])@ == endpoint_text(
                    peers@[j].ip@,
                    peers@[j].port,
                ),
        decreases peers.len() - i,
    {
        lines.push(peers[i].to_text());
        i += 1;
    }
    lines
}

/// Reads a tracker's answer and lists its peers, one `a.b.c.d:port` a line.
pub fn peers(body: &[u8]) -> (res: Result<Vec<String>, TorrentError>)
    ensures
        match parse_value(body@, 0) {
            Parse::Done { value, end } => if describes_response(value) {
                res matches Ok(lines) && ({
                    let groups = distinct_groups(
                        field(value, key_peers())->Some_0->Bytes_0,
                        (field(value, key_peers())->Some_0->Bytes_0.len() / 6) as nat,
                    );
                    &&& lines@.len() == groups.len()
                    &&& forall|i: int|
                        0 <= i < lines@.len() ==> (#[trigger] lines@[i])@ == endpoint_text(
                            group_ip(groups[i]),
                            group_port(groups[i]),
                        )
                })
            } else {
                res == Err::<Vec<String>, TorrentError>(TorrentError::TrackerMalformed)
            },
            Parse::Failed { failure } => res == Err::<Vec<String>, TorrentError>(
                TorrentError::TrackerMalformed,
            ),
        },
{
    match parse_tracker_response(body) {
        Err(e) => Err(e),
        Ok(found) => {
            let lines = peer_lines(&found);
            proof {
                let groups = crate::tracker::groups_of(found@);
                assert forall|i: int| 0 <= i < lines@.len() implies (#[trigger] lines@[i])@
                    == endpoint_text(group_ip(groups[i]), group_port(groups[i])) by {
                    crate::tracker::lemma_peer_roundtrip(
                        Seq::empty(),
                        found@[i].ip@,
                        found@[i].port,
                    );
                }
            }
            Ok(lines)
        },
    }
}

/// The line `Peer ID: <40 hexadecimal digits>`.
pub fn peer_id_line(peer_id: &[u8; 20]) -> (line: String)
    ensures
        line@ == "Peer ID: "@ + hex_text(peer_id@),
{
    labelled("Peer ID: ", hex_encode(peer_id.as_slice()).as_str())
}

/// The lines that tell of a handshake with extensions: the peer's id, and
/// the id under which the peer takes metadata requests.
pub fn handshake(peer_id: &[u8; 20], extension_id: u8) -> (lines: Vec<String>)
    ensures
        texts(lines@) == seq![
            "Peer ID: "@ + hex_text(peer_id@),
            "Peer Metadata Extension ID: "@ + decimal_text(extension_id as nat),
        ],
{
    let mut lines: Vec<String> = Vec::new();
    lines.push(peer_id_line(peer_id));
    lines.push(
        labelled("Peer Metadata Extension ID: ", decimal_string(extension_id as u64).as_str()),
    );
    assert(texts(lines@) =~= seq![
        "Peer ID: "@ + hex_text(peer_id@),
        "Peer Metadata Extension ID: "@ + decimal_text(extension_id as nat),
    ]);
    lines
}

/// Reads a peer's handshake, checks that it is for the torrent `info_hash`,
/// and gives the line `Peer ID: <40 hexadecimal digits>`.
pub fn handshake_handler(
    reply: &[u8],
    info_hash: &[u8; 20],
) -> (res: Result<String, TorrentError>)
    ensures
        reply.len() < 68 ==> res == Err::<String, TorrentError>(TorrentError::ShortRead),
        reply.len() >= 68 && reply@.subrange(28, 48) != info_hash@ ==> res == Err::<
            String,
            TorrentError,
        >(TorrentError::HandshakeRejected),
        reply.len() >= 68 && reply@.subrange(28, 48) == info_hash@ ==> (res matches Ok(line)
            && line@ == "Peer ID: "@ + hex_text(reply@.subrange(48, 68))),
{
    let message = match HandshakeMessage::from_bytes(reply) {
        Err(e) => {
            return Err(e);
        },
        Ok(message) => message,
    };
    proof {
        let frame = reply@.subrange(0, 68);
        assert(message.fields() == frame);
        assert(message.info_hash@ =~= frame.subrange(28, 48));
        assert(message.peer_id@ =~= frame.subrange(48, 68));
        assert(frame.subrange(28, 48) =~= reply@.subrange(28, 48));
        assert(frame.subrange(48, 68) =~= reply@.subrange(48, 68));
    }
    match message.accept(info_hash) {
        Err(e) => Err(e),
        Ok(()) => Ok(peer_id_line(&message.peer_id)),
    }
}

/// The lines that describe a magnet link: the info hash, and the tracker
/// where the link names one.
pub open spec fn magnet_lines(
    info_hash: Seq<char>,
    tracker_url: Option<Seq<char>>,
) -> Seq<Seq<char>> {
    match tracker_url {
        Some(url) => seq!["Info Hash: "@ + info_hash, "Tracker URL: "@ + url],
        None => seq!["Info Hash: "@ + info_hash],
    }
}

/// Reads a magnet link and describes it.
pub fn parse(magnet_link: &str) -> (res: Result<Vec<String>, TorrentError>)
    ensures
        match magnet_fields(encode_utf8(magnet_link@)) {
            Some(fields) => res matches Ok(lines) && exists|hash: Seq<char>|
                Some(encode_utf8(hash)) == fields.info_hash && texts(lines@) == magnet_lines(
                    hash,
                    fields.tracker_url,
                ),
            None => res == Err::<Vec<String>, TorrentError>(TorrentError::MagnetMalformed),
        },
{
    match MagnetLink::from(magnet_link) {
        Err(e) => Err(e),
        Ok(link) => {
            let mut lines: Vec<String> = Vec::new();
            lines.push(labelled("Info Hash: ", link.info_hash.as_str()));
            match &link.tracker_url {
                Some(url) => {
                    lines.push(labelled("Tracker URL: ", url.as_str()));
                },
                None => {},
            }
            assert(texts(lines@) =~= magnet_lines(
                link.info_hash@,
                crate::magnet::optional_text(link.tracker_url),
            ));
            Ok(lines)
        },
    }
}

} // verus!
