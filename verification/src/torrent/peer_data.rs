//! What the client knows of a peer it talks to: its id, the pieces it has, and the four
//! choking and interest flags.

use vstd::prelude::*;
use vstd::string::*;
use crate::p2p::message::PieceStatus;
use super::torrent_file_data::TorrentFileData;

verus! {

/// What can go wrong updating a peer's data.
#[derive(PartialEq, Eq, Debug, Clone)]
pub enum PeerDataForP2PCommunicationError {
    InvalidPieceIndexAtBitfield(String),
}

/// The description of the error for a piece index past the peer's pieces.
pub const INVALID_INDEX_TEXT: &'static str =
    "[PeerDataForP2PCommunicationError] Invalid indexation of pieces availability (bitfield).";

/// A peer's data during the peer wire protocol.
#[derive(PartialEq, Eq, Debug, Clone)]
pub struct PeerDataForP2PCommunication {
    pub peer_id: Vec<u8>,
    pub pieces_availability: Vec<PieceStatus>,
    pub am_choking: bool,
    pub am_interested: bool,
    pub peer_choking: bool,
    pub peer_interested: bool,
}

/// A peer in a tracker's list.
#[derive(PartialEq, Eq, Debug, Clone)]
pub struct PeerData {
    pub peer_id: String,
    pub pieces_availability: Option<Vec<PieceStatus>>,
    pub am_chocking: bool,
    pub am_interested: bool,
    pub peer_choking: bool,
}

/// A tracker's list of peers.
#[derive(PartialEq, Eq, Debug, Clone)]
pub struct PeersDataList {
    pub total_amount_of_peers: u32,
    pub data_list: Vec<PeerData>,
}

/// A bitfield of `total_amount_pieces` missing pieces.
pub fn generate_empty_bitfield(total_amount_pieces: usize) -> (res: Vec<PieceStatus>)
    ensures
        res@ == Seq::new(total_amount_pieces as nat, |i: int| PieceStatus::MissingPiece { was_requested: false }),
{
    let mut pieces_availability: Vec<PieceStatus> = Vec::new();
    let mut i: usize = 0;
    while i < total_amount_pieces
        invariant
            0 <= i <= total_amount_pieces,
            pieces_availability@ == Seq::new(i as nat, |k: int| PieceStatus::MissingPiece { was_requested: false }),
        decreases total_amount_pieces - i,
    {
        pieces_availability.push(PieceStatus::MissingPiece { was_requested: false });
        i = i + 1;
        assert(pieces_availability@ =~= Seq::new(i as nat, |k: int| PieceStatus::MissingPiece { was_requested: false }));
    }
    pieces_availability
}

impl PeerDataForP2PCommunication {
    /// A peer that has no piece yet: it chokes us and we choke it, and neither is interested.
    pub fn new(torrent_file_data: &TorrentFileData, peer_id: Vec<u8>) -> (res: PeerDataForP2PCommunication)
        ensures
            res.peer_id@ == peer_id@,
            res.pieces_availability@ == Seq::new(
                torrent_file_data.total_amount_of_pieces as nat,
                |i: int| PieceStatus::MissingPiece { was_requested: false },
            ),
            res.am_choking,
            !res.am_interested,
            res.peer_choking,
            !res.peer_interested,
    {
        let total_amount_pieces = torrent_file_data.get_total_amount_pieces();
        PeerDataForP2PCommunication {
            peer_id,
            pieces_availability: generate_empty_bitfield(total_amount_pieces),
            am_choking: true,
            am_interested: false,
            peer_choking: true,
            peer_interested: false,
        }
    }

    /// Sets the state of the piece at `piece_index`; an error for an index past the last piece.
    pub fn update_piece_status(&mut self, piece_index: usize, new_status: PieceStatus) -> (res: Result<(), PeerDataForP2PCommunicationError>)
        ensures
            final(self).peer_id == old(self).peer_id,
            final(self).am_choking == old(self).am_choking,
            final(self).am_interested == old(self).am_interested,
            final(self).peer_choking == old(self).peer_choking,
            final(self).peer_interested == old(self).peer_interested,
            piece_index < old(self).pieces_availability@.len() ==> res is Ok && final(self).pieces_availability@
                == old(self).pieces_availability@.update(piece_index as int, new_status),
            piece_index >= old(self).pieces_availability@.len() ==> (res matches Err(
                PeerDataForP2PCommunicationError::InvalidPieceIndexAtBitfield(t),
            ) && t@ == INVALID_INDEX_TEXT@) && final(self).pieces_availability@ == old(self).pieces_availability@,
    {
        if piece_index < self.pieces_availability.len() {
            self.pieces_availability.set(piece_index, new_status);
            Ok(())
        } else {
            Err(
                PeerDataForP2PCommunicationError::InvalidPieceIndexAtBitfield(
                    String::from_str(INVALID_INDEX_TEXT),
                ),
            )
        }
    }

    /// Replaces the states of all the peer's pieces.
    pub fn update_pieces_availability(&mut self, new_pieces_availability: Vec<PieceStatus>)
        ensures
            final(self).pieces_availability@ == new_pieces_availability@,
            final(self).peer_id == old(self).peer_id,
            final(self).am_choking == old(self).am_choking,
            final(self).am_interested == old(self).am_interested,
            final(self).peer_choking == old(self).peer_choking,
            final(self).peer_interested == old(self).peer_interested,
    {
        self.pieces_availability = new_pieces_availability;
    }
}

} // verus!
