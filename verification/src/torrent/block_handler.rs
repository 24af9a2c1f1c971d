//! The check of a downloaded piece against the SHA-1 hash that the .torrent file gives for it.

use vstd::prelude::*;
use vstd::string::*;
use crate::bencoding::values::bytes_equal;
use super::torrent_file_data::{sha1_digest, spec_piece_sha1, spec_sha1, TorrentFileData};

verus! {

/// What can go wrong storing a block or checking a piece.
#[derive(PartialEq, Eq, Debug, Clone)]
pub enum BlockHandlerError {
    StoringBlock(String),
    CheckingSha1Piece(String),
    IncorrectSha1Piece(String),
}

/// The description of the error for a piece whose digest is not the expected hash.
pub const SHA1_MISMATCH_TEXT: &'static str = "The downloaded piece does not pass the sha1 verification.";

/// Checks a downloaded piece: its SHA-1 digest must be the hash the .torrent file gives for
/// the piece at `piece_index`.
pub fn check_sha1_piece(torrent_file_data: &TorrentFileData, piece_index: usize, piece: &[u8]) -> (res: Result<(), BlockHandlerError>)
    requires
        piece_index < torrent_file_data.total_amount_of_pieces ==> piece_index * 20 + 20 <= usize::MAX,
    ensures
        res is Ok <==> spec_sha1(piece@) == spec_piece_sha1(
            torrent_file_data.sha1_pieces@,
            torrent_file_data.total_amount_of_pieces as int,
            piece_index as int,
        ),
        res is Err ==> (res matches Err(BlockHandlerError::CheckingSha1Piece(t)) && t@ == SHA1_MISMATCH_TEXT@),
{
    let piece_sha1 = sha1_digest(piece);
    let expected_piece_sha1 = torrent_file_data.get_piece_sha1(piece_index);
    if !bytes_equal(piece_sha1.as_slice(), expected_piece_sha1.as_slice()) {
        Err(
            BlockHandlerError::CheckingSha1Piece(
                String::from_str(SHA1_MISMATCH_TEXT),
            ),
        )
    } else {
        Ok(())
    }
}

} // verus!
