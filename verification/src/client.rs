//! The download engine: which piece goes to which peer, what happens when a
//! piece comes back or fails, and how the pieces are put together.
//!
//! The engine decides; the caller runs the sessions and reports back.

use vstd::prelude::*;
use crate::bytes::{append_bytes, bytes_eq};
use crate::digest::{has_digest, sha1_digest};
use crate::errors::TorrentError;
use crate::peer::{has_piece_spec, Peer};
use crate::pieces::Piece;
use crate::torrent::{lemma_piece_accounting, Torrent};

verus! {

/// How many pieces may be out at the same time.
pub const MAX_IN_FLIGHT: usize = 5;

/// How often a piece may fail before the download is given up.
pub const MAX_FAILURES: u32 = 3;

/// A piece that has been fetched and checked.
#[derive(Debug)]
pub struct FetchedData {
    pub piece_index: usize,
    pub data: Vec<u8>,
}

impl FetchedData {
    pub fn new(piece_index: usize, data: Vec<u8>) -> (fetched: Self)
        ensures
            fetched.piece_index == piece_index,
            fetched.data == data,
    {
        Self { piece_index, data }
    }
}

/// Where a piece stands.
#[derive(Debug, Clone, Copy, PartialEq, Eq, Structural)]
pub enum PieceStatus {
    /// Not asked for, or asked for and failed.
    Pending,
    /// Asked for from the peer of this index.
    InFlight { peer: usize },
    /// Fetched and checked.
    Done,
}

/// What the engine wants done next.
#[derive(Debug, Clone, Copy, PartialEq, Eq, Structural)]
pub enum Decision {
    /// Fetch piece `piece` from peer `peer`.
    Dispatch { piece: usize, peer: usize },
    /// Nothing to hand out now: wait for a piece to come back.
    Wait,
    /// Every wanted piece is there.
    Finished,
    /// Piece `index` cannot be had: no peer has it, or it failed too often.
    Abort { index: usize },
}

impl Decision {
    /// The failure that ends the download, where the decision is to give it
    /// up: the piece that cannot be had.
    pub fn error(&self) -> (res: Option<TorrentError>)
        ensures
            match *self {
                Decision::Abort { index } => res == Some(
                    TorrentError::PieceUnrecoverable { index },
                ),
                _ => res is None,
            },
    {
        match self {
            Decision::Abort { index } => Some(TorrentError::PieceUnrecoverable { index: *index }),
            _ => None,
        }
    }
}

/// The download engine.
#[derive(Debug)]
pub struct Client {
    pub torrent: Torrent,
    pub peers: Vec<Peer>,
    pub pieces: Vec<Piece>,
    /// For each piece, the indices of the peers to ask for it.
    pub piece_peers: Vec<Vec<usize>>,
    /// For each piece, its bytes once they are fetched and checked.
    pub fetched_data: Vec<Option<FetchedData>>,
    pub status: Vec<PieceStatus>,
    /// For each piece, how often it has failed.
    pub failures: Vec<u32>,
    /// The one piece that is wanted, in a partial download.
    pub only_piece_index: Option<usize>,
}

/// The index of the first `true` in `flags`; the length where there is none.
pub open spec fn first_true(flags: Seq<bool>) -> int
    decreases flags.len(),
{
    if flags.len() == 0 {
        0
    } else if flags[0] {
        0
    } else {
        1 + first_true(flags.drop_first())
    }
}

/// `first_true` is the least index of a `true`.
pub proof fn lemma_first_true(flags: Seq<bool>)
    ensures
        0 <= first_true(flags) <= flags.len(),
        forall|j: int| 0 <= j < first_true(flags) ==> !flags[j],
        first_true(flags) < flags.len() ==> flags[first_true(flags)],
    decreases flags.len(),
{
    if flags.len() > 0 && !flags[0] {
        let rest = flags.drop_first();
        lemma_first_true(rest);
        assert forall|j: int| 0 <= j < first_true(flags) implies !flags[j] by {
            if j > 0 {
                assert(flags[j] == rest[j - 1]);
            }
        }
    }
}

/// An index with no `true` before it, which is `true` itself or the length,
/// is `first_true`.
pub proof fn lemma_first_true_is(flags: Seq<bool>, k: int)
    requires
        0 <= k <= flags.len(),
        forall|j: int| 0 <= j < k ==> !flags[j],
        k < flags.len() ==> flags[k],
    ensures
        first_true(flags) == k,
{
    lemma_first_true(flags);
    let f = first_true(flags);
    if f < k {
        assert(!flags[f]);
    }
    if k < f {
        assert(flags[k]);
    }
}

/// The peers among the first `n` whose bitfield has piece `piece`, by index.
pub open spec fn advertisers(peers: Seq<Peer>, piece_count: int, piece: int, n: nat) -> Seq<usize>
    decreases n,
{
    if n == 0 {
        Seq::empty()
    } else {
        let before = advertisers(peers, piece_count, piece, (n - 1) as nat);
        if has_piece_spec(peers[n - 1].bitfield@, piece_count, piece) {
            before.push((n - 1) as usize)
        } else {
            before
        }
    }
}

/// How many of the first `n` pieces are out.
pub open spec fn out_count(status: Seq<PieceStatus>, n: nat) -> nat
    decreases n,
{
    if n == 0 {
        0
    } else {
        out_count(status, (n - 1) as nat) + if status[n - 1] is InFlight {
            1nat
        } else {
            0nat
        }
    }
}

/// What a change of one piece does to the number of pieces that are out.
pub proof fn lemma_out_count_update(status: Seq<PieceStatus>, i: int, to: PieceStatus, n: nat)
    requires
        0 <= i < status.len(),
        n <= status.len(),
    ensures
        out_count(status.update(i, to), n) + (if i < n && status[i] is InFlight {
            1nat
        } else {
            0nat
        }) == out_count(status, n) + (if i < n && to is InFlight {
            1nat
        } else {
            0nat
        }),
    decreases n,
{
    if n > 0 {
        lemma_out_count_update(status, i, to, (n - 1) as nat);
    }
}

/// Every peer that `advertisers` names is one of the first `n` and has the
/// piece.
pub proof fn lemma_advertisers_have(peers: Seq<Peer>, piece_count: int, piece: int, n: nat)
    requires
        n <= usize::MAX,
    ensures
        forall|k: int|
            0 <= k < advertisers(peers, piece_count, piece, n).len() ==> {
                let p = #[trigger] advertisers(peers, piece_count, piece, n)[k];
                p < n && has_piece_spec(peers[p as int].bitfield@, piece_count, piece)
            },
    decreases n,
{
    if n > 0 {
        lemma_advertisers_have(peers, piece_count, piece, (n - 1) as nat);
        let before = advertisers(peers, piece_count, piece, (n - 1) as nat);
        let all = advertisers(peers, piece_count, piece, n);
        assert forall|k: int| 0 <= k < all.len() implies ({
            let p = #[trigger] all[k];
            p < n && has_piece_spec(peers[p as int].bitfield@, piece_count, piece)
        }) by {
            if k < before.len() {
                assert(all[k] == before[k]);
            }
        }
    }
}

impl Client {
    /// The pieces are those of the torrent, in order.
    pub open spec fn pieces_match(&self) -> bool {
        &&& self.pieces@.len() == self.torrent.info.piece_count()
        &&& forall|i: int|
            0 <= i < self.pieces@.len() ==> {
                &&& (#[trigger] self.pieces@[i]).index == i
                &&& self.pieces@[i].hash@ == self.torrent.info.piece_hash_at(i)
                &&& self.pieces@[i].length == self.torrent.info.piece_length_at(i)
            }
    }

    /// The bytes held for piece `i`.
    pub open spec fn data_at(&self, i: int) -> Seq<u8> {
        self.fetched_data@[i]->Some_0.data@
    }

    /// What holds of an engine at all times: the torrent is well-formed; the
    /// tables have an entry for every piece; peers are named by indices that
    /// exist; and a piece that is done is held, with the length that the
    /// torrent gives it.
    pub open spec fn well_formed(&self) -> bool {
        &&& self.torrent.info.well_formed()
        &&& self.pieces_match()
        &&& self.piece_peers@.len() == self.pieces@.len()
        &&& self.fetched_data@.len() == self.pieces@.len()
        &&& self.status@.len() == self.pieces@.len()
        &&& self.failures@.len() == self.pieces@.len()
        &&& forall|i: int, k: int|
            0 <= i < self.piece_peers@.len() && 0 <= k < self.piece_peers@[i]@.len()
                ==> #[trigger] self.piece_peers@[i]@[k] < self.peers@.len()
        &&& forall|i: int|
            0 <= i < self.status@.len() && #[trigger] self.status@[i] == PieceStatus::Done ==> {
                &&& self.fetched_data@[i] is Some
                &&& self.data_at(i).len() == self.pieces@[i].length
            }
    }

    /// Every piece that is done has the digest that the torrent gives it.
    /// This holds of a new engine, and every step of the engine keeps it.
    pub open spec fn checked(&self) -> bool {
        forall|i: int|
            0 <= i < self.status@.len() && #[trigger] self.status@[i] == PieceStatus::Done
                ==> sha1_digest(self.data_at(i)) == self.pieces@[i].hash@
    }

    /// Whether piece `i` is wanted: every piece is, unless the download is
    /// for one piece only.
    pub open spec fn wanted(&self, i: int) -> bool {
        match self.only_piece_index {
            Some(only) => only == i,
            None => true,
        }
    }
}


impl Client {
    /// Piece `i` is wanted, is not there, and cannot be had: no peer is
    /// known to have it, or it has failed as often as a piece may.
    pub open spec fn lost(&self, i: int) -> bool {
        &&& self.wanted(i)
        &&& self.status@[i] != PieceStatus::Done
        &&& (self.failures@[i] >= MAX_FAILURES || self.piece_peers@[i]@.len() == 0)
    }

    /// For each piece, whether it is lost.
    pub open spec fn lost_flags(&self) -> Seq<bool> {
        Seq::new(self.pieces@.len(), |i: int| self.lost(i))
    }

    /// For each piece, whether it is wanted and not there.
    pub open spec fn unfinished_flags(&self) -> Seq<bool> {
        Seq::new(
            self.pieces@.len(),
            |i: int| self.wanted(i) && self.status@[i] != PieceStatus::Done,
        )
    }

    /// For each piece, whether it is wanted and waits to be handed out.
    pub open spec fn pending_flags(&self) -> Seq<bool> {
        Seq::new(
            self.pieces@.len(),
            |i: int| self.wanted(i) && self.status@[i] == PieceStatus::Pending,
        )
    }

    /// How many of the first `n` pieces are out.
    pub open spec fn in_flight(&self, n: nat) -> nat {
        out_count(self.status@, n)
    }

    /// The peer to ask for piece `i`: the peers that have it take turns, by
    /// the index of the piece and by how often it has failed, so that pieces
    /// spread over the peers and a piece that failed goes to the next peer.
    pub open spec fn chosen_peer(&self, i: int) -> usize {
        let candidates = self.piece_peers@[i]@;
        candidates[(i + self.failures@[i]) % (candidates.len() as int)]
    }

    /// Every wanted piece is there.
    pub open spec fn finished(&self) -> bool {
        first_true(self.unfinished_flags()) == self.pieces@.len()
    }

    /// What is to be done next.
    ///
    /// - Where a wanted piece is lost, the download is given up for the
    ///   first such piece.
    /// - Else, where every wanted piece is there, the download is finished.
    /// - Else, where fewer than five pieces are out and a wanted piece
    ///   waits, the first such piece goes to the peer whose turn it is.
    /// - Else there is nothing to do but wait.
    pub open spec fn decision(&self) -> Decision {
        let n = self.pieces@.len() as int;
        let lost = first_true(self.lost_flags());
        let pending = first_true(self.pending_flags());
        if lost < n {
            Decision::Abort { index: lost as usize }
        } else if self.finished() {
            Decision::Finished
        } else if self.in_flight(n as nat) < MAX_IN_FLIGHT && pending < n {
            Decision::Dispatch { piece: pending as usize, peer: self.chosen_peer(pending) }
        } else {
            Decision::Wait
        }
    }

    /// The bytes of the wanted pieces among the first `n`, in the order of
    /// the pieces.
    pub open spec fn joined(&self, n: nat) -> Seq<u8>
        decreases n,
    {
        if n == 0 {
            Seq::empty()
        } else if self.wanted(n - 1) {
            self.joined((n - 1) as nat) + self.data_at(n - 1)
        } else {
            self.joined((n - 1) as nat)
        }
    }

    /// Nothing has happened yet: every piece waits, none has failed, and no
    /// peer is known to have any.
    pub open spec fn fresh(&self) -> bool {
        &&& forall|i: int|
            0 <= i < self.status@.len() ==> #[trigger] self.status@[i] == PieceStatus::Pending
        &&& forall|i: int| 0 <= i < self.failures@.len() ==> #[trigger] self.failures@[i] == 0
        &&& forall|i: int|
            0 <= i < self.piece_peers@.len() ==> (#[trigger] self.piece_peers@[i])@.len() == 0
    }

    /// An engine for `torrent`, with its pieces laid out and no peer known.
    /// With `only_piece_index` the download is for that piece alone.
    pub fn new(torrent: Torrent, only_piece_index: Option<usize>) -> (client: Self)
        requires
            torrent.info.well_formed(),
        ensures
            client.well_formed(),
            client.checked(),
            client.torrent == torrent,
            client.only_piece_index == only_piece_index,
            client.peers@.len() == 0,
            client.fresh(),
    {
        let mut client = Client {
            torrent,
            peers: Vec::new(),
            pieces: Vec::new(),
            piece_peers: Vec::new(),
            fetched_data: Vec::new(),
            status: Vec::new(),
            failures: Vec::new(),
            only_piece_index,
        };
        client.init_pieces();
        client
    }

    /// Whether the engine is as its own steps leave it.
    pub fn is_well_formed(&self) -> (ok: bool)
        ensures
            ok == self.well_formed(),
    {
        if !self.torrent.info.is_well_formed() {
            return false;
        }
        let n = self.torrent.get_piece_count();
        if self.pieces.len() != n || self.piece_peers.len() != n || self.fetched_data.len() != n
            || self.status.len() != n || self.failures.len() != n {
            return false;
        }
        let mut i: usize = 0;
        while i < n
            invariant
                i <= n,
                n == self.torrent.info.piece_count(),
                self.torrent.info.well_formed(),
                self.pieces@.len() == n,
                self.piece_peers@.len() == n,
                self.fetched_data@.len() == n,
                self.status@.len() == n,
                self.failures@.len() == n,
                forall|j: int|
                    0 <= j < i ==> {
                        &&& (#[trigger] self.pieces@[j]).index == j
                        &&& self.pieces@[j].hash@ == self.torrent.info.piece_hash_at(j)
                        &&& self.pieces@[j].length == self.torrent.info.piece_length_at(j)
                    },
                forall|j: int, k: int|
                    0 <= j < i && 0 <= k < self.piece_peers@[j]@.len()
                        ==> #[trigger] self.piece_peers@[j]@[k] < self.peers@.len(),
                forall|j: int|
                    0 <= j < i && #[trigger] self.status@[j] == PieceStatus::Done ==> {
                        &&& self.fetched_data@[j] is Some
                        &&& self.data_at(j).len() == self.pieces@[j].length
                    },
            decreases n - i,
        {
            let piece = self.pieces[i];
            let hash = self.torrent.get_piece_hash(i);
            if piece.index != i || piece.length != self.torrent.get_piece_length(i) || !bytes_eq(
                piece.hash.as_slice(),
                hash.as_slice(),
            ) {
                assert(self.pieces@[i as int] == piece);
                return false;
            }
            let named = &self.piece_peers[i];
            let mut k: usize = 0;
            while k < named.len()
                invariant
                    k <= named@.len(),
                    i < n,
                    n == self.piece_peers@.len(),
                    *named == self.piece_peers@[i as int],
                    forall|m: int| 0 <= m < k ==> #[trigger] named@[m] < self.peers@.len(),
                decreases named@.len() - k,
            {
                if named[k] >= self.peers.len() {
                    assert(!(self.piece_peers@[i as int]@[k as int] < self.peers@.len()));
                    return false;
                }
                k += 1;
            }
            if self.status[i] == PieceStatus::Done {
                let held = match &self.fetched_data[i] {
                    Some(fetched) => fetched.data.len() == piece.length as usize,
                    None => false,
                };
                if !held {
                    assert(self.status@[i as int] == PieceStatus::Done);
                    return false;
                }
            }
            i += 1;
        }
        true
    }

    /// Lays out the pieces of the torrent, and starts every table anew.
    pub fn init_pieces(&mut self)
        requires
            old(self).torrent.info.well_formed(),
        ensures
            final(self).well_formed(),
            final(self).checked(),
            final(self).torrent == old(self).torrent,
            final(self).peers == old(self).peers,
            final(self).only_piece_index == old(self).only_piece_index,
            final(self).fresh(),
    {
        let count = self.torrent.get_piece_count();
        self.pieces = Vec::new();
        self.piece_peers = Vec::new();
        self.fetched_data = Vec::new();
        self.status = Vec::new();
        self.failures = Vec::new();
        let mut i: usize = 0;
        while i < count
            invariant
                i <= count,
                count == self.torrent.info.piece_count(),
                self.torrent.info.well_formed(),
                self.torrent == old(self).torrent,
                self.peers == old(self).peers,
                self.only_piece_index == old(self).only_piece_index,
                self.pieces@.len() == i,
                self.piece_peers@.len() == i,
                self.fetched_data@.len() == i,
                self.status@.len() == i,
                self.failures@.len() == i,
                forall|j: int|
                    0 <= j < i ==> {
                        &&& (#[trigger] self.pieces@[j]).index == j
                        &&& self.pieces@[j].hash@ == self.torrent.info.piece_hash_at(j)
                        &&& self.pieces@[j].length == self.torrent.info.piece_length_at(j)
                    },
                forall|j: int| 0 <= j < i ==> #[trigger] self.status@[j] == PieceStatus::Pending,
                forall|j: int| 0 <= j < i ==> #[trigger] self.failures@[j] == 0,
                forall|j: int| 0 <= j < i ==> (#[trigger] self.piece_peers@[j])@.len() == 0,
            decreases count - i,
        {
            let piece = Piece::new(
                i,
                self.torrent.get_piece_hash(i),
                self.torrent.get_piece_length(i),
            );
            self.pieces.push(piece);
            self.piece_peers.push(Vec::new());
            self.fetched_data.push(None);
            self.status.push(PieceStatus::Pending);
            self.failures.push(0);
            i += 1;
        }
    }

    /// Takes note of a peer that has been heard from. Returns its index.
    pub fn add_peer(&mut self, peer: Peer) -> (index: usize)
        requires
            old(self).well_formed(),
        ensures
            final(self).well_formed(),
            old(self).checked() ==> final(self).checked(),
            index == old(self).peers@.len(),
            final(self).peers@ == old(self).peers@.push(peer),
            final(self).torrent == old(self).torrent,
            final(self).pieces == old(self).pieces,
            final(self).piece_peers == old(self).piece_peers,
            final(self).fetched_data == old(self).fetched_data,
            final(self).status == old(self).status,
            final(self).failures == old(self).failures,
            final(self).only_piece_index == old(self).only_piece_index,
    {
        let index = self.peers.len();
        self.peers.push(peer);
        index
    }

    /// Works out, for every piece, the peers that have it.
    pub fn init_piece_peers(&mut self)
        requires
            old(self).well_formed(),
        ensures
            final(self).well_formed(),
            old(self).checked() ==> final(self).checked(),
            forall|i: int|
                0 <= i < final(self).pieces@.len() ==> (#[trigger] final(self).piece_peers@[i])@
                    == advertisers(
                    final(self).peers@,
                    final(self).pieces@.len() as int,
                    i,
                    final(self).peers@.len(),
                ),
            final(self).torrent == old(self).torrent,
            final(self).peers == old(self).peers,
            final(self).pieces == old(self).pieces,
            final(self).fetched_data == old(self).fetched_data,
            final(self).status == old(self).status,
            final(self).failures == old(self).failures,
            final(self).only_piece_index == old(self).only_piece_index,
    {
        let count = self.pieces.len();
        let mut table: Vec<Vec<usize>> = Vec::new();
        let mut i: usize = 0;
        while i < count
            invariant
                i <= count,
                count == self.pieces@.len(),
                table@.len() == i,
                forall|j: int|
                    0 <= j < i ==> (#[trigger] table@[j])@ == advertisers(
                        self.peers@,
                        count as int,
                        j,
                        self.peers@.len(),
                    ),
                forall|j: int, k: int|
                    0 <= j < i && 0 <= k < table@[j]@.len() ==> #[trigger] table@[j]@[k]
                        < self.peers@.len(),
            decreases count - i,
        {
            let mut having: Vec<usize> = Vec::new();
            let mut p: usize = 0;
            while p < self.peers.len()
                invariant
                    p <= self.peers@.len(),
                    i < count,
                    having@ == advertisers(self.peers@, count as int, i as int, p as nat),
                    forall|k: int| 0 <= k < having@.len() ==> #[trigger] having@[k] < p,
                decreases self.peers@.len() - p,
            {
                if self.peers[p].has_index(count, i) {
                    having.push(p);
                }
                p += 1;
            }
            table.push(having);
            i += 1;
        }
        self.piece_peers = table;
    }
}


impl Client {
    /// Everything but the state of the pieces is as in `other`.
    pub open spec fn same_plan(&self, other: &Client) -> bool {
        &&& self.torrent == other.torrent
        &&& self.peers == other.peers
        &&& self.pieces == other.pieces
        &&& self.piece_peers == other.piece_peers
        &&& self.only_piece_index == other.only_piece_index
    }

    fn is_wanted(&self, i: usize) -> (yes: bool)
        ensures
            yes == self.wanted(i as int),
    {
        match self.only_piece_index {
            Some(only) => only == i,
            None => true,
        }
    }

    fn first_lost(&self) -> (at: usize)
        requires
            self.well_formed(),
        ensures
            at == first_true(self.lost_flags()),
    {
        let n = self.pieces.len();
        let mut i: usize = 0;
        while i < n
            invariant
                i <= n,
                n == self.pieces@.len(),
                self.well_formed(),
                forall|j: int| 0 <= j < i ==> !self.lost_flags()[j],
            decreases n - i,
        {
            if self.is_wanted(i) && self.status[i] != PieceStatus::Done && (self.failures[i]
                >= MAX_FAILURES || self.piece_peers[i].len() == 0) {
                proof {
                    lemma_first_true_is(self.lost_flags(), i as int);
                }
                return i;
            }
            i += 1;
        }
        proof {
            lemma_first_true_is(self.lost_flags(), n as int);
        }
        n
    }

    fn first_unfinished(&self) -> (at: usize)
        requires
            self.well_formed(),
        ensures
            at == first_true(self.unfinished_flags()),
    {
        let n = self.pieces.len();
        let mut i: usize = 0;
        while i < n
            invariant
                i <= n,
                n == self.pieces@.len(),
                self.well_formed(),
                forall|j: int| 0 <= j < i ==> !self.unfinished_flags()[j],
            decreases n - i,
        {
            if self.is_wanted(i) && self.status[i] != PieceStatus::Done {
                proof {
                    lemma_first_true_is(self.unfinished_flags(), i as int);
                }
                return i;
            }
            i += 1;
        }
        proof {
            lemma_first_true_is(self.unfinished_flags(), n as int);
        }
        n
    }

    fn first_pending(&self) -> (at: usize)
        requires
            self.well_formed(),
        ensures
            at == first_true(self.pending_flags()),
    {
        let n = self.pieces.len();
        let mut i: usize = 0;
        while i < n
            invariant
                i <= n,
                n == self.pieces@.len(),
                self.well_formed(),
                forall|j: int| 0 <= j < i ==> !self.pending_flags()[j],
            decreases n - i,
        {
            if self.is_wanted(i) && self.status[i] == PieceStatus::Pending {
                proof {
                    lemma_first_true_is(self.pending_flags(), i as int);
                }
                return i;
            }
            i += 1;
        }
        proof {
            lemma_first_true_is(self.pending_flags(), n as int);
        }
        n
    }

    fn count_in_flight(&self) -> (count: usize)
        requires
            self.well_formed(),
        ensures
            count == self.in_flight(self.pieces@.len()),
    {
        let n = self.pieces.len();
        let mut count: usize = 0;
        let mut i: usize = 0;
        while i < n
            invariant
                i <= n,
                n == self.pieces@.len(),
                self.well_formed(),
                count == self.in_flight(i as nat),
                count <= i,
            decreases n - i,
        {
            match self.status[i] {
                PieceStatus::InFlight { .. } => {
                    count += 1;
                },
                _ => {},
            }
            i += 1;
        }
        count
    }

    /// Whether every wanted piece is there.
    pub fn is_finished(&self) -> (done: bool)
        requires
            self.well_formed(),
        ensures
            done == self.finished(),
    {
        self.first_unfinished() == self.pieces.len()
    }

    /// Decides what is to be done next. A piece that is handed out is marked
    /// as out; nothing else changes.
    pub fn next_action(&mut self) -> (decision: Decision)
        requires
            old(self).well_formed(),
        ensures
            decision == old(self).decision(),
            final(self).well_formed(),
            old(self).checked() ==> final(self).checked(),
            final(self).same_plan(old(self)),
            final(self).fetched_data == old(self).fetched_data,
            final(self).failures == old(self).failures,
            old(self).in_flight(old(self).pieces@.len()) <= MAX_IN_FLIGHT ==> final(self).in_flight(
                old(self).pieces@.len(),
            ) <= MAX_IN_FLIGHT,
            match decision {
                Decision::Dispatch { piece, peer } => piece < old(self).pieces@.len() && peer
                    < old(self).peers@.len() && old(self).status@[piece as int]
                    == PieceStatus::Pending && final(self).status@ == old(self).status@.update(
                    piece as int,
                    PieceStatus::InFlight { peer },
                ),
                _ => final(self).status == old(self).status,
            },
    {
        let n = self.pieces.len();
        let lost = self.first_lost();
        if lost < n {
            return Decision::Abort { index: lost };
        }
        if self.is_finished() {
            return Decision::Finished;
        }
        let pending = self.first_pending();
        if self.count_in_flight() < MAX_IN_FLIGHT && pending < n {
            proof {
                lemma_first_true(self.lost_flags());
                lemma_first_true(self.pending_flags());
                assert(self.pending_flags()[pending as int]);
                assert(!self.lost_flags()[pending as int]);
            }
            let candidates = &self.piece_peers[pending];
            let turn = ((pending as u128 + self.failures[pending] as u128) % (
            candidates.len() as u128)) as usize;
            let peer = candidates[turn];
            proof {
                lemma_out_count_update(
                    self.status@,
                    pending as int,
                    PieceStatus::InFlight { peer },
                    n as nat,
                );
            }
            self.status.set(pending, PieceStatus::InFlight { peer });
            return Decision::Dispatch { piece: pending, peer };
        }
        Decision::Wait
    }

    /// The bytes `data` are piece `index`: they have its length and its
    /// digest.
    pub open spec fn is_piece(&self, index: int, data: Seq<u8>) -> bool {
        data.len() == self.pieces@[index].length && sha1_digest(data) == self.pieces@[index].hash@
    }

    /// Piece `index` is out.
    pub open spec fn is_out(&self, index: int) -> bool {
        0 <= index < self.status@.len() && self.status@[index] is InFlight
    }

    /// The failures of a piece after one more: counted up to the limit.
    pub open spec fn one_more(failures: u32) -> u32 {
        if failures < MAX_FAILURES {
            (failures + 1) as u32
        } else {
            failures
        }
    }

    /// Takes the bytes that a session fetched for piece `index`. They are
    /// accepted where they have the length and the digest of the piece; the
    /// piece is then done. Else the piece has failed once more and waits
    /// again. Bytes for a piece that is not out are refused, and nothing
    /// changes.
    pub fn piece_done(&mut self, index: usize, data: Vec<u8>) -> (res: Result<(), TorrentError>)
        requires
            old(self).well_formed(),
        ensures
            final(self).well_formed(),
            old(self).checked() ==> final(self).checked(),
            final(self).same_plan(old(self)),
            final(self).in_flight(old(self).pieces@.len()) <= old(self).in_flight(
                old(self).pieces@.len(),
            ),
            if !old(self).is_out(index as int) {
                &&& res == Err::<(), TorrentError>(TorrentError::PeerMisbehaved)
                &&& final(self).status == old(self).status
                &&& final(self).failures == old(self).failures
                &&& final(self).fetched_data == old(self).fetched_data
            } else if old(self).is_piece(index as int, data@) {
                &&& res is Ok
                &&& final(self).status@ == old(self).status@.update(
                    index as int,
                    PieceStatus::Done,
                )
                &&& final(self).failures == old(self).failures
                &&& final(self).data_at(index as int) == data@
                &&& forall|j: int|
                    0 <= j < old(self).fetched_data@.len() && j != index
                        ==> final(self).fetched_data@[j] == old(self).fetched_data@[j]
            } else {
                &&& res == Err::<(), TorrentError>(TorrentError::PieceHashMismatch)
                &&& final(self).status@ == old(self).status@.update(
                    index as int,
                    PieceStatus::Pending,
                )
                &&& final(self).failures@ == old(self).failures@.update(
                    index as int,
                    Self::one_more(old(self).failures@[index as int]),
                )
                &&& final(self).fetched_data == old(self).fetched_data
            },
    {
        if index >= self.status.len() {
            return Err(TorrentError::PeerMisbehaved);
        }
        match self.status[index] {
            PieceStatus::InFlight { .. } => {},
            _ => {
                return Err(TorrentError::PeerMisbehaved);
            },
        }
        let piece = self.pieces[index];
        if data.len() == piece.length as usize && has_digest(data.as_slice(), &piece.hash) {
            proof {
                lemma_out_count_update(
                    self.status@,
                    index as int,
                    PieceStatus::Done,
                    self.pieces@.len(),
                );
            }
            self.fetched_data.set(index, Some(FetchedData::new(index, data)));
            self.status.set(index, PieceStatus::Done);
            Ok(())
        } else {
            self.count_failure(index);
            Err(TorrentError::PieceHashMismatch)
        }
    }

    fn count_failure(&mut self, index: usize)
        requires
            old(self).well_formed(),
            old(self).is_out(index as int),
        ensures
            final(self).well_formed(),
            old(self).checked() ==> final(self).checked(),
            final(self).same_plan(old(self)),
            final(self).in_flight(old(self).pieces@.len()) <= old(self).in_flight(
                old(self).pieces@.len(),
            ),
            final(self).status@ == old(self).status@.update(index as int, PieceStatus::Pending),
            final(self).failures@ == old(self).failures@.update(
                index as int,
                Self::one_more(old(self).failures@[index as int]),
            ),
            final(self).fetched_data == old(self).fetched_data,
    {
        proof {
            lemma_out_count_update(
                self.status@,
                index as int,
                PieceStatus::Pending,
                self.pieces@.len(),
            );
        }
        let failures = self.failures[index];
        let counted = if failures < MAX_FAILURES { failures + 1 } else { failures };
        self.failures.set(index, counted);
        self.status.set(index, PieceStatus::Pending);
    }

    /// Takes note that the session which fetched piece `index` failed: the
    /// piece has failed once more and waits again. For a piece that is not
    /// out nothing changes.
    pub fn piece_failed(&mut self, index: usize)
        requires
            old(self).well_formed(),
        ensures
            final(self).well_formed(),
            old(self).checked() ==> final(self).checked(),
            final(self).same_plan(old(self)),
            final(self).in_flight(old(self).pieces@.len()) <= old(self).in_flight(
                old(self).pieces@.len(),
            ),
            final(self).fetched_data == old(self).fetched_data,
            if !old(self).is_out(index as int) {
                &&& final(self).status == old(self).status
                &&& final(self).failures == old(self).failures
            } else {
                &&& final(self).status@ == old(self).status@.update(
                    index as int,
                    PieceStatus::Pending,
                )
                &&& final(self).failures@ == old(self).failures@.update(
                    index as int,
                    Self::one_more(old(self).failures@[index as int]),
                )
            },
    {
        if index >= self.status.len() {
            return ;
        }
        match self.status[index] {
            PieceStatus::InFlight { .. } => {
                self.count_failure(index);
            },
            _ => {},
        }
    }

    /// The download, put together: the bytes of the wanted pieces in the
    /// order of the pieces. There is none before every wanted piece is
    /// there.
    pub fn assemble(&self) -> (res: Option<Vec<u8>>)
        requires
            self.well_formed(),
        ensures
            self.finished() ==> (res matches Some(out) && out@ == self.joined(self.pieces@.len())),
            !self.finished() ==> res is None,
    {
        if !self.is_finished() {
            return None;
        }
        proof {
            lemma_first_true(self.unfinished_flags());
        }
        let n = self.pieces.len();
        let mut out: Vec<u8> = Vec::new();
        let mut i: usize = 0;
        while i < n
            invariant
                i <= n,
                n == self.pieces@.len(),
                self.well_formed(),
                forall|j: int| 0 <= j < n ==> !self.unfinished_flags()[j],
                out@ == self.joined(i as nat),
            decreases n - i,
        {
            if self.is_wanted(i) {
                assert(!self.unfinished_flags()[i as int]);
                assert(self.status@[i as int] == PieceStatus::Done);
                match &self.fetched_data[i] {
                    Some(fetched) => {
                        append_bytes(&mut out, fetched.data.as_slice());
                    },
                    None => {},
                }
            }
            i += 1;
        }
        Some(out)
    }
}

/// Assembly is complete: once every piece of a full download is there, the
/// bytes put together are as long as the file, and the part that each piece
/// takes in them has the digest that the torrent gives the piece.
pub proof fn lemma_assembly_complete(client: Client)
    requires
        client.well_formed(),
        client.checked(),
        client.finished(),
        client.only_piece_index is None,
    ensures
        client.joined(client.pieces@.len()).len() == client.torrent.info.length,
        forall|i: int|
            0 <= i < client.torrent.info.piece_count() ==> sha1_digest(
                #[trigger] client.joined(client.pieces@.len()).subrange(
                    i * client.torrent.info.piece_length,
                    i * client.torrent.info.piece_length + client.torrent.info.piece_length_at(i),
                ),
            ) == client.torrent.info.piece_hash_at(i),
{
    let info = client.torrent.info;
    let n = client.pieces@.len();
    lemma_first_true(client.unfinished_flags());
    lemma_piece_accounting(info);
    lemma_joined(client, n);
    assert forall|i: int| 0 <= i < info.piece_count() implies sha1_digest(
        #[trigger] client.joined(n).subrange(
            i * info.piece_length,
            i * info.piece_length + info.piece_length_at(i),
        ),
    ) == info.piece_hash_at(i) by {
        lemma_joined(client, i as nat);
        lemma_joined(client, (i + 1) as nat);
        lemma_joined_prefix(client, (i + 1) as nat, n);
        crate::torrent::lemma_total_length(info, i as nat);
        assert(!client.unfinished_flags()[i]);
        let whole = client.joined(n);
        let upto = client.joined((i + 1) as nat);
        let start = i * info.piece_length;
        assert(client.status@[i] == PieceStatus::Done);
        assert(upto == client.joined(i as nat) + client.data_at(i));
        assert(client.joined(i as nat).len() == start);
        assert(client.data_at(i).len() == info.piece_length_at(i));
        assert(whole.subrange(0, upto.len() as int) == upto);
        assert forall|k: int| 0 <= k < info.piece_length_at(i) implies whole[start + k]
            == client.data_at(i)[k] by {
            assert(whole[start + k] == whole.subrange(0, upto.len() as int)[start + k]);
        }
        assert(whole.subrange(
            i * info.piece_length,
            i * info.piece_length + info.piece_length_at(i),
        ) =~= client.data_at(i));
    }
}

/// In a full download where the first `n` pieces are there, their bytes put
/// together are as long as the torrent says.
proof fn lemma_joined(client: Client, n: nat)
    requires
        client.well_formed(),
        client.only_piece_index is None,
        n <= client.pieces@.len(),
        forall|j: int| 0 <= j < client.pieces@.len() ==> !client.unfinished_flags()[j],
    ensures
        client.joined(n).len() == client.torrent.info.total_length(n),
    decreases n,
{
    if n > 0 {
        lemma_joined(client, (n - 1) as nat);
        assert(!client.unfinished_flags()[n - 1]);
        assert(client.status@[n - 1] == PieceStatus::Done);
    }
}

/// What is put together from the first `m` pieces begins with what is put
/// together from the first `n`, for `n <= m`.
proof fn lemma_joined_prefix(client: Client, n: nat, m: nat)
    requires
        n <= m,
    ensures
        client.joined(m).len() >= client.joined(n).len(),
        client.joined(m).subrange(0, client.joined(n).len() as int) == client.joined(n),
    decreases m,
{
    if n == m {
        assert(client.joined(m).subrange(0, client.joined(n).len() as int) =~= client.joined(n));
    } else {
        lemma_joined_prefix(client, n, (m - 1) as nat);
        assert(client.joined(m).subrange(0, client.joined(n).len() as int) =~= client.joined(
            (m - 1) as nat,
        ).subrange(0, client.joined(n).len() as int));
    }
}


/// A piece goes to a peer that has it: where the table of peers is the one
/// that `init_piece_peers` works out, the peer that a piece is handed to
/// announces that piece in its bitfield.
pub proof fn lemma_dispatch_to_advertiser(client: Client)
    requires
        client.well_formed(),
        forall|i: int|
            0 <= i < client.pieces@.len() ==> (#[trigger] client.piece_peers@[i])@ == advertisers(
                client.peers@,
                client.pieces@.len() as int,
                i,
                client.peers@.len(),
            ),
        client.decision() is Dispatch,
    ensures
        client.decision()->peer < client.peers@.len(),
        has_piece_spec(
            client.peers@[client.decision()->peer as int].bitfield@,
            client.pieces@.len() as int,
            client.decision()->piece as int,
        ),
{
    let n = client.pieces@.len() as int;
    let piece = first_true(client.pending_flags());
    lemma_first_true(client.lost_flags());
    lemma_first_true(client.pending_flags());
    assert(client.pending_flags()[piece]);
    assert(!client.lost_flags()[piece]);
    let candidates = client.piece_peers@[piece]@;
    assert(client.peers.len() == client.peers@.len());
    lemma_advertisers_have(client.peers@, n, piece, client.peers@.len());
    assert(client.pieces.len() == client.pieces@.len());
    let all = advertisers(client.peers@, n, piece, client.peers@.len());
    assert(candidates == all);
    let turn = (piece + client.failures@[piece]) % (candidates.len() as int);
    assert(0 <= turn < candidates.len());
    assert(all[turn] == client.chosen_peer(piece));
    assert(client.decision() == Decision::Dispatch {
        piece: piece as usize,
        peer: client.chosen_peer(piece),
    });
}


/// Two full downloads of one torrent, both finished, agree in length and in
/// the digest of every piece.
pub proof fn lemma_downloads_agree(first: Client, second: Client)
    requires
        first.well_formed(),
        second.well_formed(),
        first.checked(),
        second.checked(),
        first.finished(),
        second.finished(),
        first.only_piece_index is None,
        second.only_piece_index is None,
        first.torrent == second.torrent,
    ensures
        first.joined(first.pieces@.len()).len() == second.joined(second.pieces@.len()).len(),
        forall|i: int|
            #![trigger first.torrent.info.piece_hash_at(i)]
            0 <= i < first.torrent.info.piece_count() ==> {
                let info = first.torrent.info;
                let from = i * info.piece_length;
                let to = from + info.piece_length_at(i);
                sha1_digest(first.joined(first.pieces@.len()).subrange(from, to)) == sha1_digest(
                    second.joined(second.pieces@.len()).subrange(from, to),
                )
            },
{
    lemma_assembly_complete(first);
    lemma_assembly_complete(second);
    let info = first.torrent.info;
    assert forall|i: int|
        #![trigger first.torrent.info.piece_hash_at(i)]
        0 <= i < info.piece_count() implies ({
        let from = i * info.piece_length;
        let to = from + info.piece_length_at(i);
        sha1_digest(first.joined(first.pieces@.len()).subrange(from, to)) == sha1_digest(
            second.joined(second.pieces@.len()).subrange(from, to),
        )
    }) by {
        let from = i * info.piece_length;
        let to = from + info.piece_length_at(i);
        let a = first.joined(first.pieces@.len()).subrange(from, to);
        let b = second.joined(second.pieces@.len()).subrange(from, to);
        assert(sha1_digest(a) == info.piece_hash_at(i));
        assert(sha1_digest(b) == info.piece_hash_at(i));
    }
}

} // verus!
