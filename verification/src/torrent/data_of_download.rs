//! The first form of a download's state, kept for the client's earlier bookkeeping, and the
//! client's own data.

use vstd::prelude::*;
use crate::p2p::message::PieceStatus;
use super::torrent_status::{spec_flushed, StateOfDownload};

verus! {

/// The state of a download: bytes uploaded, downloaded and left, and the state of each piece.
#[derive(PartialEq, Eq, Debug, Clone)]
pub struct DataOfDownload {
    pub uploaded: u64,
    pub downloaded: u64,
    pub left: u64,
    pub event: StateOfDownload,
    pub pieces_availability: Vec<PieceStatus>,
}

/// The state of the client.
#[derive(PartialEq, Eq, Debug, Clone, Copy, Structural)]
pub enum ClientState {
    Started,
    Completed,
    Stopped,
}

/// The client's data for a torrent.
#[derive(PartialEq, Eq, Debug, Clone)]
pub struct ClientData {
    pub peer_id: String,
    pub info_hash: Vec<u8>,
    pub uploaded: u32,
    pub downloaded: u32,
    pub left: u32,
    pub event: ClientState,
    pub pieces_availability: Vec<PieceStatus>,
}

impl DataOfDownload {
    /// The state of a new download of `size_torrent` bytes in `total_amount_pieces` pieces,
    /// all missing.
    pub fn new(size_torrent: u64, total_amount_pieces: usize) -> (res: DataOfDownload)
        ensures
            res.uploaded == 0,
            res.downloaded == 0,
            res.left == size_torrent,
            res.event == StateOfDownload::Started,
            res.pieces_availability@ == Seq::new(
                total_amount_pieces as nat,
                |i: int| PieceStatus::MissingPiece { was_requested: false },
            ),
    {
        let mut pieces_availability: Vec<PieceStatus> = Vec::new();
        let mut i: usize = 0;
        while i < total_amount_pieces
            invariant
                0 <= i <= total_amount_pieces,
                pieces_availability@ == Seq::new(i as nat, |k: int| PieceStatus::MissingPiece { was_requested: false }),
            decreases total_amount_pieces - i,
        {
            pieces_availability.push(PieceStatus::MissingPiece { was_requested: false });
            i = i + 1;
            assert(pieces_availability@ =~= Seq::new(i as nat, |k: int| PieceStatus::MissingPiece { was_requested: false }));
        }
        DataOfDownload { uploaded: 0, downloaded: 0, left: size_torrent, event: StateOfDownload::Started, pieces_availability }
    }

    /// Whether the piece at `piece_index` is missing and not asked for.
    pub fn is_a_missing_piece(&self, piece_index: usize) -> (res: bool)
        ensures
            res == (piece_index < self.pieces_availability@.len() && self.pieces_availability@[piece_index as int]
                == PieceStatus::MissingPiece { was_requested: false }),
    {
        if piece_index < self.pieces_availability.len() {
            self.pieces_availability[piece_index] == PieceStatus::MissingPiece { was_requested: false }
        } else {
            false
        }
    }

    /// Whether the piece at `piece_index` is downloaded and checked.
    pub fn is_a_valid_and_available_piece(&self, piece_index: usize) -> (res: bool)
        ensures
            res == (piece_index < self.pieces_availability@.len() && self.pieces_availability@[piece_index as int]
                == PieceStatus::ValidAndAvailablePiece),
    {
        if piece_index < self.pieces_availability.len() {
            self.pieces_availability[piece_index] == PieceStatus::ValidAndAvailablePiece
        } else {
            false
        }
    }

    /// Starts the download over for `size_torrent` bytes: the counters are reset, the state is
    /// started, and partly downloaded pieces are missing again.
    pub fn flush_data(&mut self, size_torrent: u64)
        ensures
            final(self).uploaded == 0,
            final(self).downloaded == 0,
            final(self).left == size_torrent,
            final(self).event == StateOfDownload::Started,
            final(self).pieces_availability@ == old(self).pieces_availability@.map_values(|p: PieceStatus| spec_flushed(p)),
    {
        self.uploaded = 0;
        self.downloaded = 0;
        self.left = size_torrent;
        self.event = StateOfDownload::Started;
        let ghost before = self.pieces_availability@;
        let mut i: usize = 0;
        while i < self.pieces_availability.len()
            invariant
                self.pieces_availability@.len() == before.len(),
                0 <= i <= before.len(),
                self.uploaded == 0,
                self.downloaded == 0,
                self.left == size_torrent,
                self.event == StateOfDownload::Started,
                before == old(self).pieces_availability@,
                forall|k: int| 0 <= k < i ==> self.pieces_availability@[k] == spec_flushed(#[trigger] before[k]),
                forall|k: int| i <= k < before.len() ==> #[trigger] self.pieces_availability@[k] == before[k],
            decreases before.len() - i,
        {
            if let PieceStatus::PartiallyDownloaded { .. } = self.pieces_availability[i] {
                self.pieces_availability.set(i, PieceStatus::MissingPiece { was_requested: false });
            }
            i = i + 1;
        }
        assert(self.pieces_availability@ =~= before.map_values(|p: PieceStatus| spec_flushed(p)));
    }
}

} // verus!
