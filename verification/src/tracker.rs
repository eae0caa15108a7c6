//! The tracker: the announce URL to ask, and the peers in its answer.

use vstd::prelude::*;
use vstd::string::StringExecFns;
use crate::bencode::grammar::{field, parse_value, BValue, Parse};
use crate::bencode::decode_bencoded_value;
use crate::bytes::{array_from, be16, from_be16, lemma_be16_roundtrip, read_be16};
use crate::errors::TorrentError;
use crate::bencode::grammar::{decimal_digits, is_digit};
use crate::bencode::readback::lemma_decimal_digits;
use crate::percent::{
    form_encoded, is_form_safe, is_form_safe_text, lemma_form_safe_text, percent_encode,
    percent_encoded,
};
use vstd::utf8::encode_utf8;
use crate::text::{decimal_string, decimal_text};

verus! {

/// The port this client announces.
pub const LISTEN_PORT: u16 = 6881;

/// The length of one peer in a compact peer list.
pub const PEER_LEN: usize = 6;

/// A peer's IPv4 address and port.
#[derive(Debug, Clone, Copy)]
pub struct PeerEndpoint {
    pub ip: [u8; 4],
    pub port: u16,
}

/// The six bytes that stand for a peer in a compact list: the address, then
/// the port, most significant byte first.
pub open spec fn compact(ip: Seq<u8>, port: u16) -> Seq<u8> {
    ip + be16(port)
}

/// The address in a six-byte group.
pub open spec fn group_ip(group: Seq<u8>) -> Seq<u8> {
    group.subrange(0, 4)
}

/// The port in a six-byte group.
pub open spec fn group_port(group: Seq<u8>) -> u16 {
    from_be16(group.subrange(4, 6))
}

/// Decoding a six-byte group and encoding the peer gives the group back; and
/// encoding a peer and decoding the group gives the peer back.
pub proof fn lemma_peer_roundtrip(group: Seq<u8>, ip: Seq<u8>, port: u16)
    ensures
        group.len() == 6 ==> compact(group_ip(group), group_port(group)) == group,
        ip.len() == 4 ==> group_ip(compact(ip, port)) == ip && group_port(compact(ip, port))
            == port,
{
    if group.len() == 6 {
        lemma_be16_roundtrip(0, group.subrange(4, 6));
        assert(compact(group_ip(group), group_port(group)) =~= group);
    }
    if ip.len() == 4 {
        lemma_be16_roundtrip(port, Seq::empty());
        assert(group_ip(compact(ip, port)) =~= ip);
        assert(compact(ip, port).subrange(4, 6) =~= be16(port));
    }
}

impl PeerEndpoint {
    /// The six bytes of this peer in a compact list.
    pub open spec fn group(&self) -> Seq<u8> {
        compact(self.ip@, self.port)
    }

    /// The peer that the six bytes at `at` stand for.
    pub fn decode(bytes: &[u8], at: usize) -> (peer: Self)
        requires
            at + 6 <= bytes.len(),
        ensures
            peer.ip@ == group_ip(bytes@.subrange(at as int, at + 6)),
            peer.port == group_port(bytes@.subrange(at as int, at + 6)),
            peer.group() == bytes@.subrange(at as int, at + 6),
    {
        let ghost group = bytes@.subrange(at as int, at + 6);
        let ip = array_from::<4>(bytes, at);
        let port = read_be16(bytes, at + 4);
        proof {
            assert(group.subrange(0, 4) =~= bytes@.subrange(at as int, at + 4));
            assert(group.subrange(4, 6) =~= bytes@.subrange(at + 4, at + 6));
            lemma_peer_roundtrip(group, Seq::empty(), 0);
        }
        PeerEndpoint { ip, port }
    }

    /// The six bytes that stand for this peer.
    pub fn encode(&self) -> (bytes: [u8; 6])
        ensures
            bytes@ == self.group(),
    {
        let bytes: [u8; 6] = [
            self.ip[0],
            self.ip[1],
            self.ip[2],
            self.ip[3],
            (self.port / 0x100) as u8,
            (self.port % 0x100) as u8,
        ];
        assert(bytes@ =~= self.group());
        bytes
    }

    /// Whether two endpoints are the same address and port.
    pub fn same(&self, other: &PeerEndpoint) -> (yes: bool)
        ensures
            yes == (self.group() == other.group()),
    {
        proof {
            lemma_peer_roundtrip(Seq::empty(), self.ip@, self.port);
            lemma_peer_roundtrip(Seq::empty(), other.ip@, other.port);
        }
        let yes = self.ip[0] == other.ip[0] && self.ip[1] == other.ip[1] && self.ip[2]
            == other.ip[2] && self.ip[3] == other.ip[3] && self.port == other.port;
        proof {
            if yes {
                assert(self.ip@ =~= other.ip@);
            }
        }
        yes
    }
}

/// A peer written as `a.b.c.d:port`.
pub open spec fn endpoint_text(ip: Seq<u8>, port: u16) -> Seq<char> {
    decimal_text(ip[0] as nat) + "."@ + decimal_text(ip[1] as nat) + "."@ + decimal_text(
        ip[2] as nat,
    ) + "."@ + decimal_text(ip[3] as nat) + ":"@ + decimal_text(port as nat)
}

/// Writes the first six bytes of `peer`, a group of a compact peer list, as
/// `a.b.c.d:port`.
pub fn formatter_peer(peer: &[u8]) -> (res: Result<String, TorrentError>)
    ensures
        peer.len() < 6 ==> res == Err::<String, TorrentError>(TorrentError::TrackerMalformed),
        peer.len() >= 6 ==> (res matches Ok(text) && text@ == endpoint_text(
            group_ip(peer@.subrange(0, 6)),
            group_port(peer@.subrange(0, 6)),
        )),
{
    if peer.len() < 6 {
        return Err(TorrentError::TrackerMalformed);
    }
    let endpoint = PeerEndpoint::decode(peer, 0);
    Ok(endpoint.to_text())
}

impl PeerEndpoint {
    /// This peer as `a.b.c.d:port`.
    pub fn to_text(&self) -> (text: String)
        ensures
            text@ == endpoint_text(self.ip@, self.port),
    {
        let mut text = decimal_string(self.ip[0] as u64);
        text.append(".");
        text.append(decimal_string(self.ip[1] as u64).as_str());
        text.append(".");
        text.append(decimal_string(self.ip[2] as u64).as_str());
        text.append(".");
        text.append(decimal_string(self.ip[3] as u64).as_str());
        text.append(":");
        text.append(decimal_string(self.port as u64).as_str());
        text
    }
}


/// The key `interval`.
pub open spec fn key_interval() -> Seq<u8> {
    seq![0x69u8, 0x6e, 0x74, 0x65, 0x72, 0x76, 0x61, 0x6c]
}

/// The key `peers`.
pub open spec fn key_peers() -> Seq<u8> {
    seq![0x70u8, 0x65, 0x65, 0x72, 0x73]
}

/// `v` is a tracker's answer: an `interval` that is not negative, and `peers`
/// made of whole six-byte groups.
pub open spec fn describes_response(v: BValue) -> bool {
    &&& field(v, key_interval()) matches Some(BValue::Int(interval))
    &&& interval >= 0
    &&& field(v, key_peers()) matches Some(BValue::Bytes(peers))
    &&& peers.len() % 6 == 0
}

/// The `k`-th six-byte group of a compact peer list.
pub open spec fn nth_group(peers: Seq<u8>, k: int) -> Seq<u8> {
    peers.subrange(6 * k, 6 * k + 6)
}

/// The groups among the first `n` of a compact peer list, each one once, at
/// the place where it first stands.
pub open spec fn distinct_groups(peers: Seq<u8>, n: nat) -> Seq<Seq<u8>>
    decreases n,
{
    if n == 0 {
        Seq::empty()
    } else {
        let before = distinct_groups(peers, (n - 1) as nat);
        let group = nth_group(peers, n - 1);
        if before.contains(group) {
            before
        } else {
            before.push(group)
        }
    }
}

/// The six-byte groups of a list of peers.
pub open spec fn groups_of(peers: Seq<PeerEndpoint>) -> Seq<Seq<u8>> {
    Seq::new(peers.len(), |i: int| peers[i].group())
}

fn holds(peers: &Vec<PeerEndpoint>, peer: &PeerEndpoint) -> (yes: bool)
    ensures
        yes == groups_of(peers@).contains(peer.group()),
{
    let mut i: usize = 0;
    while i < peers.len()
        invariant
            i <= peers.len(),
            forall|j: int| 0 <= j < i ==> groups_of(peers@)[j] != peer.group(),
        decreases peers.len() - i,
    {
        if peers[i].same(peer) {
            assert(groups_of(peers@)[i as int] == peer.group());
            return true;
        }
        i += 1;
    }
    false
}

fn interval_key() -> (k: [u8; 8])
    ensures
        k@ == key_interval(),
{
    let k: [u8; 8] = [0x69, 0x6e, 0x74, 0x65, 0x72, 0x76, 0x61, 0x6c];
    assert(k@ =~= key_interval());
    k
}

fn peers_key() -> (k: [u8; 5])
    ensures
        k@ == key_peers(),
{
    let k: [u8; 5] = [0x70, 0x65, 0x65, 0x72, 0x73];
    assert(k@ =~= key_peers());
    k
}

/// The peers of a compact list, each once, in the order of first appearance.
pub fn decode_peers(peers: &[u8]) -> (res: Vec<PeerEndpoint>)
    requires
        peers.len() % 6 == 0,
    ensures
        groups_of(res@) == distinct_groups(peers@, (peers.len() / 6) as nat),
{
    let count = peers.len() / PEER_LEN;
    let mut found: Vec<PeerEndpoint> = Vec::new();
    let mut k: usize = 0;
    assert(groups_of(found@) =~= distinct_groups(peers@, 0));
    while k < count
        invariant
            k <= count,
            count == peers.len() / 6,
            groups_of(found@) == distinct_groups(peers@, k as nat),
        decreases count - k,
    {
        let peer = PeerEndpoint::decode(peers, k * 6);
        let ghost before = groups_of(found@);
        if !holds(&found, &peer) {
            found.push(peer);
            assert(groups_of(found@) =~= before.push(peer.group()));
        }
        k += 1;
    }
    found
}

/// Reads a tracker's answer and returns its peers, each once.
pub fn parse_tracker_response(body: &[u8]) -> (res: Result<Vec<PeerEndpoint>, TorrentError>)
    ensures
        match parse_value(body@, 0) {
            Parse::Done { value, end } => if describes_response(value) {
                res matches Ok(peers) && groups_of(peers@) == distinct_groups(
                    field(value, key_peers())->Some_0->Bytes_0,
                    (field(value, key_peers())->Some_0->Bytes_0.len() / 6) as nat,
                )
            } else {
                res == Err::<Vec<PeerEndpoint>, TorrentError>(TorrentError::TrackerMalformed)
            },
            Parse::Failed { failure } => res == Err::<Vec<PeerEndpoint>, TorrentError>(
                TorrentError::TrackerMalformed,
            ),
        },
{
    let value = match decode_bencoded_value(body) {
        Err(_) => {
            return Err(TorrentError::TrackerMalformed);
        },
        Ok((value, _)) => value,
    };
    match value.get(interval_key().as_slice()) {
        None => {
            return Err(TorrentError::TrackerMalformed);
        },
        Some(found) => match found.as_int() {
            None => {
                return Err(TorrentError::TrackerMalformed);
            },
            Some(interval) => if interval < 0 {
                return Err(TorrentError::TrackerMalformed);
            },
        },
    }
    match value.get(peers_key().as_slice()) {
        None => Err(TorrentError::TrackerMalformed),
        Some(found) => match found.as_bytes() {
            None => Err(TorrentError::TrackerMalformed),
            Some(peers) => if peers.len() % PEER_LEN != 0 {
                Err(TorrentError::TrackerMalformed)
            } else {
                Ok(decode_peers(peers.as_slice()))
            },
        },
    }
}

/// The error of `serde_urlencoded::to_string`, carried through and never
/// looked into.
#[verifier::external_type_specification]
#[verifier::external_body]
pub struct ExFormError(serde_urlencoded::ser::Error);

/// One pair of a form: the key and the value, each encoded from its UTF-8
/// bytes, with `=` between them.
pub open spec fn form_pair(pair: (Seq<char>, Seq<char>)) -> Seq<char> {
    form_encoded(encode_utf8(pair.0)) + "="@ + form_encoded(encode_utf8(pair.1))
}

/// A list of key and value texts as `application/x-www-form-urlencoded`:
/// the pairs in order, with `&` between them.
pub open spec fn form_urlencoded(pairs: Seq<(Seq<char>, Seq<char>)>) -> Seq<char>
    decreases pairs.len(),
{
    if pairs.len() == 0 {
        Seq::empty()
    } else if pairs.len() == 1 {
        form_pair(pairs.last())
    } else {
        form_urlencoded(pairs.drop_last()) + "&"@ + form_pair(pairs.last())
    }
}

/// The texts of a list of pairs.
pub open spec fn pair_texts(pairs: Seq<(String, String)>) -> Seq<(Seq<char>, Seq<char>)> {
    Seq::new(pairs.len(), |i: int| (pairs[i].0@, pairs[i].1@))
}

/// Calls `serde_urlencoded::to_string` on a list of pairs of strings. For
/// such a list it does not fail: it writes each pair as key, `=` and value,
/// puts `&` between the pairs, and leaves of the UTF-8 bytes of keys and
/// values only letters, digits, `*`, `-`, `.` and `_` as they are; a space
/// becomes `+`, every other byte `%` and two upper-case hexadecimal digits.
#[verifier::external_body]
fn form_urlencode(
    pairs: &Vec<(String, String)>,
) -> (res: Result<String, serde_urlencoded::ser::Error>)
    ensures
        res is Ok,
        res matches Ok(query) ==> query@ == form_urlencoded(pair_texts(pairs@)),
{
    serde_urlencoded::to_string(pairs)
}

/// The parameters of an announce, but for the info hash, in the order sent.
pub open spec fn announce_pairs(peer_id: Seq<char>, left: u32) -> Seq<(Seq<char>, Seq<char>)> {
    seq![
        ("peer_id"@, peer_id),
        ("port"@, decimal_text(LISTEN_PORT as nat)),
        ("uploaded"@, "0"@),
        ("downloaded"@, "0"@),
        ("left"@, decimal_text(left as nat)),
        ("compact"@, "1"@),
    ]
}

/// The announce URL: the tracker's address, the encoded parameters, and the
/// info hash percent-encoded byte by byte.
pub open spec fn announce_url(
    announce: Seq<char>,
    query: Seq<char>,
    info_hash: Seq<u8>,
) -> Seq<char> {
    announce + "?"@ + query + "&info_hash="@ + percent_encoded(info_hash)
}

/// Puts the announce URL together from the encoded parameters.
pub fn assemble_announce_url(announce: &str, query: &str, info_hash: &[u8; 20]) -> (url: String)
    ensures
        url@ == announce_url(announce@, query@, info_hash@),
{
    let mut url = String::from_str(announce);
    url.append("?");
    url.append(query);
    url.append("&info_hash=");
    url.append(percent_encode(info_hash.as_slice()).as_str());
    url
}

fn pair(key: &str, value: String) -> (p: (String, String))
    ensures
        p.0@ == key@,
        p.1@ == value@,
{
    (String::from_str(key), value)
}

/// The URL to ask the tracker at `announce` for peers of the torrent
/// `info_hash`, of which `left` bytes are still wanted, under `peer_id`:
/// `<announce>?peer_id=..&port=6881&uploaded=0&downloaded=0&left=..&compact=1&info_hash=..`.
pub fn tracker_url(announce: &str, info_hash: &[u8; 20], peer_id: &str, left: u32) -> (url: String)
    ensures
        url@ == announce_url(
            announce@,
            form_urlencoded(announce_pairs(peer_id@, left)),
            info_hash@,
        ),
{
    let mut pairs: Vec<(String, String)> = Vec::new();
    pairs.push(pair("peer_id", String::from_str(peer_id)));
    pairs.push(pair("port", decimal_string(LISTEN_PORT as u64)));
    pairs.push(pair("uploaded", String::from_str("0")));
    pairs.push(pair("downloaded", String::from_str("0")));
    pairs.push(pair("left", decimal_string(left as u64)));
    pairs.push(pair("compact", String::from_str("1")));
    assert(pair_texts(pairs@) =~= announce_pairs(peer_id@, left));
    match form_urlencode(&pairs) {
        Ok(query) => assemble_announce_url(announce, query.as_str(), info_hash),
        Err(_) => vstd::pervasive::unreached(),
    }
}


proof fn lemma_form_pair(key: Seq<char>, value: Seq<char>)
    requires
        is_form_safe_text(key),
        is_form_safe_text(value),
    ensures
        form_pair((key, value)) == key + "="@ + value,
{
    lemma_form_safe_text(key);
    lemma_form_safe_text(value);
}

proof fn lemma_form_six(
    a: (Seq<char>, Seq<char>),
    b: (Seq<char>, Seq<char>),
    c: (Seq<char>, Seq<char>),
    d: (Seq<char>, Seq<char>),
    e: (Seq<char>, Seq<char>),
    f: (Seq<char>, Seq<char>),
)
    ensures
        form_urlencoded(seq![a, b, c, d, e, f]) == form_pair(a) + "&"@ + form_pair(b) + "&"@
            + form_pair(c) + "&"@ + form_pair(d) + "&"@ + form_pair(e) + "&"@ + form_pair(f),
{
    let p6 = seq![a, b, c, d, e, f];
    let p5 = seq![a, b, c, d, e];
    let p4 = seq![a, b, c, d];
    let p3 = seq![a, b, c];
    let p2 = seq![a, b];
    let p1 = seq![a];
    assert(p6.drop_last() =~= p5);
    assert(p5.drop_last() =~= p4);
    assert(p4.drop_last() =~= p3);
    assert(p3.drop_last() =~= p2);
    assert(p2.drop_last() =~= p1);
    assert(form_urlencoded(p1) == form_pair(a));
    assert(form_urlencoded(p2) == form_urlencoded(p1) + "&"@ + form_pair(b));
    assert(form_urlencoded(p3) == form_urlencoded(p2) + "&"@ + form_pair(c));
    assert(form_urlencoded(p4) == form_urlencoded(p3) + "&"@ + form_pair(d));
    assert(form_urlencoded(p5) == form_urlencoded(p4) + "&"@ + form_pair(e));
    assert(form_urlencoded(p6) == form_urlencoded(p5) + "&"@ + form_pair(f));
}

proof fn lemma_query_keys()
    ensures
        is_form_safe_text("peer_id"@),
        is_form_safe_text("port"@),
        is_form_safe_text("uploaded"@),
        is_form_safe_text("downloaded"@),
        is_form_safe_text("left"@),
        is_form_safe_text("compact"@),
        is_form_safe_text("0"@),
        is_form_safe_text("1"@),
        is_form_safe_text(decimal_text(6881)),
{
    reveal_strlit("peer_id");
    reveal_strlit("port");
    reveal_strlit("uploaded");
    reveal_strlit("downloaded");
    reveal_strlit("left");
    reveal_strlit("compact");
    reveal_strlit("0");
    reveal_strlit("1");
    lemma_decimal_text_safe(6881);
}

proof fn lemma_decimal_text_safe(n: nat)
    ensures
        is_form_safe_text(decimal_text(n)),
{
    lemma_decimal_digits(n);
    let text = decimal_text(n);
    assert forall|i: int| 0 <= i < text.len() implies '\0' <= (#[trigger] text[i]) <= '\u{7f}'
        && is_form_safe(text[i] as u8) by {
        assert(is_digit(decimal_digits(n)[i]));
    }
}

proof fn lemma_query_head()
    ensures
        "peer_id"@ + "="@ == "peer_id="@,
{
    reveal_strlit("peer_id");
    reveal_strlit("=");
    reveal_strlit("peer_id=");
    assert("peer_id"@ + "="@ =~= "peer_id="@);
}

proof fn lemma_query_tail()
    ensures
        "&"@ + ("compact"@ + "="@ + "1"@) == "&compact=1"@,
{
    reveal_strlit("compact");
    reveal_strlit("=");
    reveal_strlit("&");
    reveal_strlit("1");
    reveal_strlit("&compact=1");
    assert("&"@ + ("compact"@ + "="@ + "1"@) =~= "&compact=1"@);
}

proof fn lemma_query_port()
    ensures
        "&"@ + ("port"@ + "="@ + decimal_text(6881)) == "&port=6881"@,
{
    reveal_strlit("port");
    reveal_strlit("=");
    reveal_strlit("&");
    reveal_strlit("&port=6881");
    assert(decimal_digits(6881) =~= seq![0x36u8, 0x38, 0x38, 0x31]) by {
        reveal_with_fuel(decimal_digits, 5);
    }
    assert(decimal_text(6881) =~= seq!['6', '8', '8', '1']);
    assert("&"@ + ("port"@ + "="@ + decimal_text(6881)) =~= "&port=6881"@);
}

proof fn lemma_query_uploaded()
    ensures
        "&"@ + ("uploaded"@ + "="@ + "0"@) == "&uploaded=0"@,
{
    reveal_strlit("uploaded");
    reveal_strlit("=");
    reveal_strlit("&");
    reveal_strlit("0");
    reveal_strlit("&uploaded=0");
    assert("&"@ + ("uploaded"@ + "="@ + "0"@) =~= "&uploaded=0"@);
}

proof fn lemma_query_downloaded()
    ensures
        "&"@ + ("downloaded"@ + "="@ + "0"@) == "&downloaded=0"@,
{
    reveal_strlit("downloaded");
    reveal_strlit("=");
    reveal_strlit("&");
    reveal_strlit("0");
    reveal_strlit("&downloaded=0");
    assert("&"@ + ("downloaded"@ + "="@ + "0"@) =~= "&downloaded=0"@);
}

proof fn lemma_query_left()
    ensures
        "&"@ + ("left"@ + "="@) == "&left="@,
{
    reveal_strlit("left");
    reveal_strlit("=");
    reveal_strlit("&");
    reveal_strlit("&left=");
    assert("&"@ + ("left"@ + "="@) =~= "&left="@);
}

proof fn lemma_query_middle()
    ensures
        "&port=6881"@ + "&uploaded=0"@ + "&downloaded=0"@ + "&left="@
            == "&port=6881&uploaded=0&downloaded=0&left="@,
{
    reveal_strlit("&port=6881");
    reveal_strlit("&uploaded=0");
    reveal_strlit("&downloaded=0");
    reveal_strlit("&left=");
    reveal_strlit("&port=6881&uploaded=0&downloaded=0&left=");
    assert("&port=6881"@ + "&uploaded=0"@ + "&downloaded=0"@ + "&left="@
        =~= "&port=6881&uploaded=0&downloaded=0&left="@);
}

/// The shape of the query: for a peer id of letters and digits the encoded
/// parameters read
/// `peer_id=<id>&port=6881&uploaded=0&downloaded=0&left=<left>&compact=1`.
#[verifier::rlimit(60)]
#[verifier::spinoff_prover]
pub proof fn lemma_announce_query(peer_id: Seq<char>, left: u32)
    requires
        is_form_safe_text(peer_id),
    ensures
        form_urlencoded(announce_pairs(peer_id, left)) == "peer_id="@ + peer_id
            + "&port=6881&uploaded=0&downloaded=0&left="@ + decimal_text(left as nat)
            + "&compact=1"@,
{
    let wanted = decimal_text(left as nat);
    let port = decimal_text(6881);
    lemma_query_keys();
    lemma_decimal_text_safe(left as nat);
    lemma_form_pair("peer_id"@, peer_id);
    lemma_form_pair("port"@, port);
    lemma_form_pair("uploaded"@, "0"@);
    lemma_form_pair("downloaded"@, "0"@);
    lemma_form_pair("left"@, wanted);
    lemma_form_pair("compact"@, "1"@);
    let a = ("peer_id"@, peer_id);
    let b = ("port"@, port);
    let c = ("uploaded"@, "0"@);
    let d = ("downloaded"@, "0"@);
    let e = ("left"@, wanted);
    let f = ("compact"@, "1"@);
    assert(announce_pairs(peer_id, left) =~= seq![a, b, c, d, e, f]);
    lemma_form_six(a, b, c, d, e, f);
    lemma_query_head();
    lemma_query_port();
    lemma_query_uploaded();
    lemma_query_downloaded();
    lemma_query_left();
    lemma_query_middle();
    lemma_query_tail();
    let head = "peer_id"@ + "="@;
    let s_port = "&"@ + ("port"@ + "="@ + port);
    let s_up = "&"@ + ("uploaded"@ + "="@ + "0"@);
    let s_down = "&"@ + ("downloaded"@ + "="@ + "0"@);
    let s_left = "&"@ + ("left"@ + "="@);
    let s_tail = "&"@ + ("compact"@ + "="@ + "1"@);
    let query = form_urlencoded(seq![a, b, c, d, e, f]);
    assert(query =~= head + peer_id + s_port + s_up + s_down + s_left + wanted + s_tail);
    assert(head + peer_id + s_port + s_up + s_down + s_left + wanted + s_tail =~= head + peer_id
        + (s_port + s_up + s_down + s_left) + wanted + s_tail);
}

} // verus!
