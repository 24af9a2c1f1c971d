//! The state of a torrent's download: the bytes uploaded, downloaded and left, and the state
//! of each piece.

use vstd::prelude::*;
use vstd::string::*;
use crate::p2p::message::PieceStatus;
use super::torrent_file_data::{spec_piece_len, TorrentFileData, BLOCK_BYTES};

verus! {

/// What can go wrong updating or reading the state of a download.
#[derive(PartialEq, Eq, Debug, Clone)]
pub enum TorrentStatusError {
    UpdatingPieceStatus(String),
    CalculatingBeginningByteIndex(String),
    CalculatingAmountOfBytes(String),
    CalculatingDownloadedPorcentage(String),
}

impl TorrentStatusError {
    /// The description that the error carries.
    pub open spec fn text(&self) -> Seq<char> {
        match self {
            TorrentStatusError::UpdatingPieceStatus(t) => t@,
            TorrentStatusError::CalculatingBeginningByteIndex(t) => t@,
            TorrentStatusError::CalculatingAmountOfBytes(t) => t@,
            TorrentStatusError::CalculatingDownloadedPorcentage(t) => t@,
        }
    }
}

/// The description of the error for a block of a piece that is already complete.
pub const COMPLETED_PIECE_TEXT: &'static str = "[TorrentStatusError] The piece has already been completed.";

/// The description of the error for a block of a piece that was not asked for.
pub const NOT_REQUESTED_TEXT: &'static str = "[TorrentStatusError] The received piece was not requested before.";

/// The description of the error for the beginning of a piece that cannot be asked for.
pub const BEGIN_INDEX_TEXT: &'static str =
    "[InteractionHandlerError] Invalid piece index given in order to calculate beggining byte index.";

/// The description of the error for a piece too long for its length to fit a `u32`.
pub const PIECE_LENGTH_CONVERSION_TEXT: &'static str = "out of range integral type conversion attempted";

/// The description of the error for asking for a piece that is already complete.
pub const REQUEST_COMPLETE_TEXT: &'static str =
    "[TorrentStatusError] A valid and available piece cannot be setting as requested.";

/// The description of the error for asking for a piece past the last one.
pub const REQUEST_INDEX_TEXT: &'static str = "[TorrentStatusError] The given piece index does not match with a piece.";

/// The description of the error for a block refused by a piece that does not take it.
pub open spec fn spec_refused_block_text(p: PieceStatus) -> Seq<char> {
    if p == PieceStatus::ValidAndAvailablePiece {
        COMPLETED_PIECE_TEXT@
    } else {
        NOT_REQUESTED_TEXT@
    }
}

/// The state of the whole download.
#[derive(PartialEq, Eq, Debug, Clone, Copy, Structural)]
pub enum StateOfDownload {
    Started,
    Completed,
    Stopped,
}

/// The state of a torrent's download.
#[derive(PartialEq, Eq, Debug, Clone)]
pub struct TorrentStatus {
    pub uploaded: u64,
    pub downloaded: u64,
    pub left: u64,
    pub event: StateOfDownload,
    pub pieces_availability: Vec<PieceStatus>,
}

/// Whether a piece is downloaded and checked.
pub open spec fn spec_is_valid(p: PieceStatus) -> bool {
    p == PieceStatus::ValidAndAvailablePiece
}

/// Whether every piece is downloaded and checked.
pub open spec fn spec_all_completed(pieces: Seq<PieceStatus>) -> bool {
    forall|i: int| 0 <= i < pieces.len() ==> #[trigger] spec_is_valid(pieces[i])
}

/// The number of pieces downloaded and checked.
pub open spec fn spec_count_valid(pieces: Seq<PieceStatus>) -> int
    decreases pieces.len(),
{
    if pieces.len() == 0 {
        0
    } else {
        spec_count_valid(pieces.drop_last()) + if spec_is_valid(pieces.last()) {
            1int
        } else {
            0int
        }
    }
}

/// Whether a piece may be asked for: it is missing or partly downloaded, and not asked for.
pub open spec fn spec_is_valid_piece_to_request(p: PieceStatus) -> bool {
    p == PieceStatus::MissingPiece { was_requested: false } || (p matches PieceStatus::PartiallyDownloaded {
        was_requested: false,
        ..
    })
}

/// Whether a piece may be asked for: it is missing or partly downloaded, and not asked for.
pub fn is_valid_piece_to_request(piece_status: &PieceStatus) -> (res: bool)
    ensures
        res == spec_is_valid_piece_to_request(*piece_status),
{
    match piece_status {
        PieceStatus::MissingPiece { was_requested: false } => true,
        PieceStatus::PartiallyDownloaded { was_requested: false, .. } => true,
        _ => false,
    }
}

/// The state of a piece once a block of `amount` bytes from `begin` arrived for it, where the
/// piece is `piece_len` bytes long: a piece that was asked for takes the block, and is done
/// once it holds all its bytes; any other piece refuses it.
pub open spec fn spec_piece_after_block(p: PieceStatus, piece_len: int, begin: int, amount: int) -> Option<PieceStatus> {
    match p {
        PieceStatus::MissingPiece { was_requested: true } => Some(
            if piece_len == amount {
                PieceStatus::ValidAndAvailablePiece
            } else {
                PieceStatus::PartiallyDownloaded { downloaded_bytes: amount as u32, was_requested: false }
            },
        ),
        PieceStatus::PartiallyDownloaded { downloaded_bytes, was_requested: true } => Some(
            if piece_len - (downloaded_bytes + amount) == 0 {
                PieceStatus::ValidAndAvailablePiece
            } else {
                PieceStatus::PartiallyDownloaded { downloaded_bytes: (begin + amount) as u32, was_requested: false }
            },
        ),
        _ => None,
    }
}

/// Whether taking the block overflows no count: the bytes of a partly downloaded piece stay
/// within the piece and a `u32`, and the counters stay within a `u64`.
pub open spec fn spec_block_fits(s: TorrentStatus, p: PieceStatus, piece_len: int, begin: int, amount: int) -> bool {
    spec_is_requested(p) ==> {
        &&& s.downloaded + amount <= u64::MAX
        &&& amount <= s.left
        &&& p matches PieceStatus::PartiallyDownloaded { downloaded_bytes, was_requested: true } ==> downloaded_bytes
            + amount <= u32::MAX && downloaded_bytes + amount <= piece_len && begin + amount <= u32::MAX
    }
}

/// The number of downloaded pieces tells how far the download is: it is the number of all
/// pieces exactly when every piece is downloaded, and it is above zero exactly when some piece
/// is downloaded.
pub proof fn lemma_downloaded_count(pieces: Seq<PieceStatus>)
    ensures
        0 <= spec_count_valid(pieces) <= pieces.len(),
        spec_count_valid(pieces) == pieces.len() <==> spec_all_completed(pieces),
        spec_count_valid(pieces) > 0 <==> exists|k: int| 0 <= k < pieces.len() && #[trigger] spec_is_valid(pieces[k]),
    decreases pieces.len(),
{
    if pieces.len() > 0 {
        let rest = pieces.drop_last();
        lemma_downloaded_count(rest);
        assert forall|i: int| 0 <= i < rest.len() implies rest[i] == pieces[i] by {}
        if spec_all_completed(pieces) {
            assert(spec_is_valid(pieces[pieces.len() - 1]));
            assert forall|i: int| 0 <= i < rest.len() implies #[trigger] spec_is_valid(rest[i]) by {
                assert(spec_is_valid(pieces[i]));
            }
        }
        if spec_count_valid(pieces) == pieces.len() {
            assert forall|i: int| 0 <= i < pieces.len() implies #[trigger] spec_is_valid(pieces[i]) by {
                if i < rest.len() {
                    assert(spec_is_valid(rest[i]));
                }
            }
        }
        if exists|k: int| 0 <= k < pieces.len() && #[trigger] spec_is_valid(pieces[k]) {
            let k = choose|k: int| 0 <= k < pieces.len() && #[trigger] spec_is_valid(pieces[k]);
            if k < rest.len() {
                assert(spec_is_valid(rest[k]));
            }
        }
        if spec_count_valid(rest) > 0 {
            let k = choose|k: int| 0 <= k < rest.len() && #[trigger] spec_is_valid(rest[k]);
            assert(spec_is_valid(pieces[k]));
        }
        if spec_is_valid(pieces.last()) {
            assert(spec_is_valid(pieces[pieces.len() - 1]));
        }
    }
}

/// The pieces that the client asks a peer for are exactly those it still lacks and has not
/// asked for, missing or partly downloaded, that the peer has: a partly downloaded piece is
/// asked for again until it is complete, and a piece already asked for, or complete, is not.
pub proof fn lemma_wanted_pieces(own: Seq<PieceStatus>, external: Seq<PieceStatus>, k: int)
    requires
        0 <= k < own.len(),
        k < external.len(),
    ensures
        spec_is_wanted(own, external, k) <==> external[k] == PieceStatus::ValidAndAvailablePiece && (own[k]
            == PieceStatus::MissingPiece { was_requested: false } || exists|d: u32|
            own[k] == PieceStatus::PartiallyDownloaded { downloaded_bytes: d, was_requested: false }),
{
    if let PieceStatus::PartiallyDownloaded { downloaded_bytes, was_requested: false } = own[k] {
        assert(own[k] == PieceStatus::PartiallyDownloaded { downloaded_bytes, was_requested: false });
    }
}

/// The bytes that a piece asked for holds: none for a missing piece, the downloaded ones for
/// a partly downloaded piece.
pub open spec fn spec_held_bytes(p: PieceStatus) -> int {
    match p {
        PieceStatus::PartiallyDownloaded { downloaded_bytes, .. } => downloaded_bytes as int,
        _ => 0,
    }
}

/// A block that a piece asked for takes, starting where the bytes it holds end, adds its bytes
/// to the piece: the piece holds its former bytes and the block's, and is complete once they
/// are the whole piece; the piece is then no longer asked for.
pub proof fn lemma_taken_block_adds_its_bytes(p: PieceStatus, piece_len: int, begin: int, amount: int)
    requires
        spec_is_requested(p),
        begin == spec_held_bytes(p),
        0 < amount,
        spec_held_bytes(p) + amount <= piece_len,
        spec_held_bytes(p) + amount <= u32::MAX,
    ensures
        spec_piece_after_block(p, piece_len, begin, amount) matches Some(q) && if spec_held_bytes(p) + amount
            == piece_len {
            q == PieceStatus::ValidAndAvailablePiece
        } else {
            q == PieceStatus::PartiallyDownloaded {
                downloaded_bytes: (spec_held_bytes(p) + amount) as u32,
                was_requested: false,
            } && spec_held_bytes(q) == spec_held_bytes(p) + amount
        },
{
}

/// Whether a piece was asked for and is not complete: the pieces that take a block.
pub open spec fn spec_is_requested(p: PieceStatus) -> bool {
    p == PieceStatus::MissingPiece { was_requested: true } || (p matches PieceStatus::PartiallyDownloaded {
        was_requested: true,
        ..
    })
}

/// Whether the client wants the piece at `k` from a peer: it may be asked for, and the peer
/// has it.
pub open spec fn spec_is_wanted(own: Seq<PieceStatus>, external: Seq<PieceStatus>, k: int) -> bool {
    spec_is_valid_piece_to_request(own[k]) && external[k] == PieceStatus::ValidAndAvailablePiece
}

/// A piece with its request mark cleared.
pub open spec fn spec_not_requested(p: PieceStatus) -> PieceStatus {
    match p {
        PieceStatus::MissingPiece { .. } => PieceStatus::MissingPiece { was_requested: false },
        PieceStatus::PartiallyDownloaded { downloaded_bytes, .. } => PieceStatus::PartiallyDownloaded {
            downloaded_bytes,
            was_requested: false,
        },
        PieceStatus::ValidAndAvailablePiece => PieceStatus::ValidAndAvailablePiece,
    }
}

/// A piece that is not yet valid, once asked for: a partly downloaded piece keeps its bytes.
pub open spec fn spec_requested(p: PieceStatus) -> PieceStatus {
    match p {
        PieceStatus::PartiallyDownloaded { downloaded_bytes, .. } => PieceStatus::PartiallyDownloaded {
            downloaded_bytes,
            was_requested: true,
        },
        _ => PieceStatus::MissingPiece { was_requested: true },
    }
}

/// Forgetting the requests undoes asking for a piece: asking for a piece that is not valid,
/// then forgetting every request, leaves the pieces as forgetting alone does.
pub proof fn lemma_forgetting_undoes_a_request(pieces: Seq<PieceStatus>, piece_index: int)
    requires
        0 <= piece_index < pieces.len(),
        !spec_is_valid(pieces[piece_index]),
    ensures
        pieces.update(piece_index, spec_requested(pieces[piece_index])).map_values(|p: PieceStatus| spec_not_requested(p))
            == pieces.map_values(|p: PieceStatus| spec_not_requested(p)),
{
    let asked = pieces.update(piece_index, spec_requested(pieces[piece_index]));
    assert(asked.map_values(|p: PieceStatus| spec_not_requested(p)) =~= pieces.map_values(
        |p: PieceStatus| spec_not_requested(p),
    ));
}

/// A piece as it stands after the download starts over: a partly downloaded piece is missing
/// again.
pub open spec fn spec_flushed(p: PieceStatus) -> PieceStatus {
    match p {
        PieceStatus::PartiallyDownloaded { .. } => PieceStatus::MissingPiece { was_requested: false },
        _ => p,
    }
}

/// A copy of a piece state.
fn copy_status(p: &PieceStatus) -> (res: PieceStatus)
    ensures
        res == *p,
{
    *p
}

impl TorrentStatus {
    /// The state of a new download of `size_torrent` bytes in `total_amount_pieces` pieces,
    /// all missing and not asked for.
    pub fn new(size_torrent: u64, total_amount_pieces: usize) -> (res: TorrentStatus)
        ensures
            res.uploaded == 0,
            res.downloaded == 0,
            res.left == size_torrent,
            res.event == StateOfDownload::Started,
            res.pieces_availability@ == Seq::new(
                total_amount_pieces as nat,
                |i: int| PieceStatus::MissingPiece { was_requested: false },
            ),
    {
        let mut pieces_availability: Vec<PieceStatus> = Vec::new();
        let mut i: usize = 0;
        while i < total_amount_pieces
            invariant
                0 <= i <= total_amount_pieces,
                pieces_availability@ == Seq::new(i as nat, |k: int| PieceStatus::MissingPiece { was_requested: false }),
            decreases total_amount_pieces - i,
        {
            pieces_availability.push(PieceStatus::MissingPiece { was_requested: false });
            i = i + 1;
            assert(pieces_availability@ =~= Seq::new(i as nat, |k: int| PieceStatus::MissingPiece { was_requested: false }));
        }
        TorrentStatus { uploaded: 0, downloaded: 0, left: size_torrent, event: StateOfDownload::Started, pieces_availability }
    }

    /// The bytes downloaded.
    pub fn get_downloaded_bytes(&self) -> (res: u64)
        ensures
            res == self.downloaded,
    {
        self.downloaded
    }

    /// The bytes uploaded.
    pub fn get_uploaded_bytes(&self) -> (res: u64)
        ensures
            res == self.uploaded,
    {
        self.uploaded
    }

    /// The number of pieces downloaded and checked.
    pub fn get_amount_of_downloaded_pieces(&self) -> (res: u64)
        ensures
            res == spec_count_valid(self.pieces_availability@),
    {
        let ghost pieces = self.pieces_availability@;
        let mut count: u64 = 0;
        let mut i: usize = 0;
        while i < self.pieces_availability.len()
            invariant
                pieces == self.pieces_availability@,
                0 <= i <= pieces.len(),
                count == spec_count_valid(pieces.take(i as int)),
                count <= i,
            decreases pieces.len() - i,
        {
            assert(pieces.take(i + 1).drop_last() =~= pieces.take(i as int));
            if self.pieces_availability[i] == PieceStatus::ValidAndAvailablePiece {
                count = count + 1;
            }
            i = i + 1;
        }
        assert(pieces.take(i as int) =~= pieces);
        count
    }

    /// Whether the piece at `piece_index` is missing and not asked for.
    pub fn is_a_missing_piece(&self, piece_index: usize) -> (res: bool)
        ensures
            res == (piece_index < self.pieces_availability@.len() && self.pieces_availability@[piece_index as int]
                == PieceStatus::MissingPiece { was_requested: false }),
    {
        if piece_index < self.pieces_availability.len() {
            self.pieces_availability[piece_index] == PieceStatus::MissingPiece { was_requested: false }
        } else {
            false
        }
    }

    /// Whether the piece at `piece_index` is downloaded and checked.
    pub fn is_a_valid_and_available_piece(&self, piece_index: usize) -> (res: bool)
        ensures
            res == (piece_index < self.pieces_availability@.len() && spec_is_valid(
                self.pieces_availability@[piece_index as int],
            )),
    {
        if piece_index < self.pieces_availability.len() {
            self.pieces_availability[piece_index] == PieceStatus::ValidAndAvailablePiece
        } else {
            false
        }
    }

    /// The state of the piece at `piece_index`.
    pub fn get_piece_status(&self, piece_index: usize) -> (res: Option<&PieceStatus>)
        ensures
            piece_index < self.pieces_availability@.len() ==> res == Some(&self.pieces_availability@[piece_index as int]),
            piece_index >= self.pieces_availability@.len() ==> res is None,
    {
        if piece_index < self.pieces_availability.len() {
            Some(&self.pieces_availability[piece_index])
        } else {
            None
        }
    }

    /// The state of every piece.
    pub fn get_pieces_availability(&self) -> (res: Vec<PieceStatus>)
        ensures
            res@ == self.pieces_availability@,
    {
        let mut res: Vec<PieceStatus> = Vec::new();
        let mut i: usize = 0;
        while i < self.pieces_availability.len()
            invariant
                0 <= i <= self.pieces_availability@.len(),
                res@ == self.pieces_availability@.take(i as int),
            decreases self.pieces_availability@.len() - i,
        {
            res.push(copy_status(&self.pieces_availability[i]));
            i = i + 1;
            assert(res@ =~= self.pieces_availability@.take(i as int));
        }
        assert(self.pieces_availability@.take(i as int) =~= self.pieces_availability@);
        res
    }

    /// Counts `amount_of_bytes` more bytes downloaded, and as many fewer left.
    pub fn increment_downloaded_counter(&mut self, amount_of_bytes: u64)
        requires
            old(self).downloaded + amount_of_bytes <= u64::MAX,
            amount_of_bytes <= old(self).left,
        ensures
            final(self).downloaded == old(self).downloaded + amount_of_bytes,
            final(self).left == old(self).left - amount_of_bytes,
            final(self).uploaded == old(self).uploaded,
            final(self).event == old(self).event,
            final(self).pieces_availability@ == old(self).pieces_availability@,
    {
        self.downloaded = self.downloaded + amount_of_bytes;
        self.left = self.left - amount_of_bytes;
    }

    /// Counts `amount_of_bytes` more bytes uploaded.
    pub fn increment_uploaded_counter(&mut self, amount_of_bytes: u64)
        requires
            old(self).uploaded + amount_of_bytes <= u64::MAX,
        ensures
            final(self).uploaded == old(self).uploaded + amount_of_bytes,
            final(self).downloaded == old(self).downloaded,
            final(self).left == old(self).left,
            final(self).event == old(self).event,
            final(self).pieces_availability@ == old(self).pieces_availability@,
    {
        self.uploaded = self.uploaded + amount_of_bytes;
    }

    /// Whether every piece is downloaded and checked.
    pub fn all_pieces_completed(&self) -> (res: bool)
        ensures
            res == spec_all_completed(self.pieces_availability@),
    {
        let mut i: usize = 0;
        while i < self.pieces_availability.len()
            invariant
                0 <= i <= self.pieces_availability@.len(),
                forall|k: int| 0 <= k < i ==> #[trigger] spec_is_valid(self.pieces_availability@[k]),
            decreases self.pieces_availability@.len() - i,
        {
            if self.pieces_availability[i] != PieceStatus::ValidAndAvailablePiece {
                assert(!spec_is_valid(self.pieces_availability@[i as int]));
                return false;
            }
            i = i + 1;
        }
        true
    }

    /// Whether some piece is downloaded and checked.
    pub fn all_pieces_left(&self) -> (res: bool)
        ensures
            res == exists|k: int| 0 <= k < self.pieces_availability@.len() && #[trigger] spec_is_valid(self.pieces_availability@[k]),
    {
        let mut i: usize = 0;
        while i < self.pieces_availability.len()
            invariant
                0 <= i <= self.pieces_availability@.len(),
                forall|k: int| 0 <= k < i ==> !#[trigger] spec_is_valid(self.pieces_availability@[k]),
            decreases self.pieces_availability@.len() - i,
        {
            if self.pieces_availability[i] == PieceStatus::ValidAndAvailablePiece {
                assert(spec_is_valid(self.pieces_availability@[i as int]));
                return true;
            }
            i = i + 1;
        }
        false
    }

    /// Whether the download is marked as completed.
    pub fn is_torrent_state_set_as_completed(&self) -> (res: bool)
        ensures
            res == (self.event == StateOfDownload::Completed),
    {
        self.event == StateOfDownload::Completed
    }

    /// Takes a block of `amount_of_bytes` bytes from `beginning_byte_index` of the piece at
    /// `piece_index`: a piece that was asked for takes it and counts its bytes as downloaded,
    /// and the download is marked as completed once every piece is; a piece that was not asked
    /// for, or is complete, refuses it and nothing changes. An index past the last piece
    /// changes no piece.
    pub fn update_piece_status(
        &mut self,
        torrent_file_data: &TorrentFileData,
        piece_index: usize,
        beginning_byte_index: u32,
        amount_of_bytes: u32,
    ) -> (res: Result<(), TorrentStatusError>)
        requires
            torrent_file_data.well_formed(),
            piece_index < old(self).pieces_availability@.len() ==> spec_block_fits(
                *old(self),
                old(self).pieces_availability@[piece_index as int],
                spec_piece_len(torrent_file_data.model(), piece_index as int),
                beginning_byte_index as int,
                amount_of_bytes as int,
            ),
        ensures
            final(self).uploaded == old(self).uploaded,
            final(self).downloaded + final(self).left == old(self).downloaded + old(self).left,
            forall|k: int|
                0 <= k < old(self).pieces_availability@.len() && #[trigger] spec_is_valid(old(self).pieces_availability@[k])
                    ==> spec_is_valid(final(self).pieces_availability@[k]),
            piece_index >= old(self).pieces_availability@.len() ==> res is Ok && final(self).pieces_availability@
                == old(self).pieces_availability@ && final(self).downloaded == old(self).downloaded && final(self).event
                == (if spec_all_completed(old(self).pieces_availability@) {
                StateOfDownload::Completed
            } else {
                old(self).event
            }),
            piece_index < old(self).pieces_availability@.len() ==> match spec_piece_after_block(
                old(self).pieces_availability@[piece_index as int],
                spec_piece_len(torrent_file_data.model(), piece_index as int),
                beginning_byte_index as int,
                amount_of_bytes as int,
            ) {
                Some(p) => res is Ok && final(self).pieces_availability@ == old(self).pieces_availability@.update(
                    piece_index as int,
                    p,
                ) && final(self).downloaded == old(self).downloaded + amount_of_bytes && final(self).event == (
                if spec_all_completed(final(self).pieces_availability@) {
                    StateOfDownload::Completed
                } else {
                    old(self).event
                }),
                None => res matches Err(TorrentStatusError::UpdatingPieceStatus(t)) && t@ == spec_refused_block_text(
                    old(self).pieces_availability@[piece_index as int],
                ) && *final(self) == *old(self),
            },
    {
        let piece_lenght = match torrent_file_data.calculate_piece_lenght(piece_index) {
            Ok(l) => l,
            Err(_) => {
                return Err(
                    TorrentStatusError::UpdatingPieceStatus(String::from_str("[TorrentStatusError] The piece length cannot be calculated.")),
                )
            },
        };
        if piece_index < self.pieces_availability.len() {
            let current = copy_status(&self.pieces_availability[piece_index]);
            match current {
                PieceStatus::MissingPiece { was_requested: true } => {
                    let new_status = if piece_lenght == amount_of_bytes as u64 {
                        PieceStatus::ValidAndAvailablePiece
                    } else {
                        PieceStatus::PartiallyDownloaded { downloaded_bytes: amount_of_bytes, was_requested: false }
                    };
                    self.pieces_availability.set(piece_index, new_status);
                    self.increment_downloaded_counter(amount_of_bytes as u64);
                },
                PieceStatus::PartiallyDownloaded { downloaded_bytes, was_requested: true } => {
                    let remaining_bytes = piece_lenght - (downloaded_bytes + amount_of_bytes) as u64;
                    let new_status = if remaining_bytes == 0 {
                        PieceStatus::ValidAndAvailablePiece
                    } else {
                        PieceStatus::PartiallyDownloaded {
                            downloaded_bytes: beginning_byte_index + amount_of_bytes,
                            was_requested: false,
                        }
                    };
                    self.pieces_availability.set(piece_index, new_status);
                    self.increment_downloaded_counter(amount_of_bytes as u64);
                },
                PieceStatus::ValidAndAvailablePiece => {
                    return Err(
                        TorrentStatusError::UpdatingPieceStatus(
                            String::from_str(COMPLETED_PIECE_TEXT),
                        ),
                    );
                },
                _ => {
                    return Err(
                        TorrentStatusError::UpdatingPieceStatus(
                            String::from_str(NOT_REQUESTED_TEXT),
                        ),
                    );
                },
            }
        }
        if self.all_pieces_completed() {
            self.event = StateOfDownload::Completed;
        }
        Ok(())
    }

    /// The byte of a piece from which the next block is asked for: what a partly downloaded
    /// piece holds, or zero for a missing piece not asked for; an error for any other piece.
    pub fn calculate_beginning_byte_index(&self, piece_index: usize) -> (res: Result<u32, TorrentStatusError>)
        ensures
            match (if piece_index < self.pieces_availability@.len() {
                Some(self.pieces_availability@[piece_index as int])
            } else {
                None
            }) {
                Some(PieceStatus::PartiallyDownloaded { downloaded_bytes, .. }) => res == Ok::<u32, TorrentStatusError>(downloaded_bytes),
                Some(PieceStatus::MissingPiece { was_requested: false }) => res == Ok::<u32, TorrentStatusError>(0),
                _ => res matches Err(TorrentStatusError::CalculatingBeginningByteIndex(t)) && t@ == BEGIN_INDEX_TEXT@,
            },
    {
        if piece_index < self.pieces_availability.len() {
            match copy_status(&self.pieces_availability[piece_index]) {
                PieceStatus::PartiallyDownloaded { downloaded_bytes, was_requested: _ } => {
                    return Ok(downloaded_bytes);
                },
                PieceStatus::MissingPiece { was_requested: false } => {
                    return Ok(0);
                },
                _ => {},
            }
        }
        Err(
            TorrentStatusError::CalculatingBeginningByteIndex(
                String::from_str(BEGIN_INDEX_TEXT),
            ),
        )
    }

    /// The number of bytes of the next block to ask for: what is left of the piece from
    /// `beginning_byte_index`, at most a block; an error where the piece length does not fit a
    /// `u32`.
    pub fn calculate_amount_of_bytes_of_block(
        &self,
        torrent_file_data: &TorrentFileData,
        piece_index: usize,
        beginning_byte_index: u32,
    ) -> (res: Result<u32, TorrentStatusError>)
        requires
            torrent_file_data.well_formed(),
            spec_piece_len(torrent_file_data.model(), piece_index as int) <= u32::MAX ==> beginning_byte_index
                <= spec_piece_len(torrent_file_data.model(), piece_index as int),
        ensures
            ({
                let len = spec_piece_len(torrent_file_data.model(), piece_index as int);
                if len > u32::MAX {
                    res matches Err(TorrentStatusError::CalculatingAmountOfBytes(t)) && t@ == PIECE_LENGTH_CONVERSION_TEXT@
                } else if len - beginning_byte_index <= BLOCK_BYTES {
                    res == Ok::<u32, TorrentStatusError>((len - beginning_byte_index) as u32)
                } else {
                    res == Ok::<u32, TorrentStatusError>(BLOCK_BYTES)
                }
            }),
    {
        let piece_length = match torrent_file_data.calculate_piece_lenght(piece_index) {
            Ok(l) => l,
            Err(_) => {
                return Err(
                    TorrentStatusError::CalculatingAmountOfBytes(String::from_str("[TorrentStatusError] The piece length cannot be calculated.")),
                )
            },
        };
        if piece_length > 4294967295u64 {
            return Err(
                TorrentStatusError::CalculatingAmountOfBytes(String::from_str(PIECE_LENGTH_CONVERSION_TEXT)),
            );
        }
        let piece_lenght = piece_length as u32;
        let remaining_bytes = piece_lenght - beginning_byte_index;
        if remaining_bytes <= BLOCK_BYTES {
            Ok(remaining_bytes)
        } else {
            Ok(BLOCK_BYTES)
        }
    }

    /// Marks the piece at `piece_index` as asked for; an error for a complete piece or an index
    /// past the last piece.
    pub fn set_piece_as_requested(&mut self, piece_index: usize) -> (res: Result<(), TorrentStatusError>)
        ensures
            final(self).uploaded == old(self).uploaded,
            final(self).downloaded == old(self).downloaded,
            final(self).left == old(self).left,
            final(self).event == old(self).event,
            piece_index < old(self).pieces_availability@.len() && !spec_is_valid(old(self).pieces_availability@[piece_index as int]) ==> res is Ok
                && final(self).pieces_availability@ == old(self).pieces_availability@.update(
                piece_index as int,
                spec_requested(old(self).pieces_availability@[piece_index as int]),
            ),
            !(piece_index < old(self).pieces_availability@.len() && !spec_is_valid(old(self).pieces_availability@[piece_index as int]))
                ==> (res matches Err(TorrentStatusError::UpdatingPieceStatus(t)) && t@ == (if piece_index
                < old(self).pieces_availability@.len() {
                REQUEST_COMPLETE_TEXT@
            } else {
                REQUEST_INDEX_TEXT@
            }) && final(self).pieces_availability@ == old(self).pieces_availability@),
    {
        if piece_index < self.pieces_availability.len() {
            match copy_status(&self.pieces_availability[piece_index]) {
                PieceStatus::MissingPiece { was_requested: _ } => {
                    self.pieces_availability.set(piece_index, PieceStatus::MissingPiece { was_requested: true });
                    Ok(())
                },
                PieceStatus::PartiallyDownloaded { downloaded_bytes, was_requested: _ } => {
                    self.pieces_availability.set(
                        piece_index,
                        PieceStatus::PartiallyDownloaded { downloaded_bytes, was_requested: true },
                    );
                    Ok(())
                },
                _ => Err(
                    TorrentStatusError::UpdatingPieceStatus(
                        String::from_str(REQUEST_COMPLETE_TEXT),
                    ),
                ),
            }
        } else {
            Err(
                TorrentStatusError::UpdatingPieceStatus(
                    String::from_str(REQUEST_INDEX_TEXT),
                ),
            )
        }
    }

    /// Clears the request mark of every piece.
    pub fn set_all_pieces_as_not_requested(&mut self)
        ensures
            final(self).uploaded == old(self).uploaded,
            final(self).downloaded == old(self).downloaded,
            final(self).left == old(self).left,
            final(self).event == old(self).event,
            final(self).pieces_availability@ == old(self).pieces_availability@.map_values(|p: PieceStatus| spec_not_requested(p)),
    {
        let ghost before = self.pieces_availability@;
        let mut i: usize = 0;
        while i < self.pieces_availability.len()
            invariant
                self.pieces_availability@.len() == before.len(),
                0 <= i <= before.len(),
                self.uploaded == old(self).uploaded,
                self.downloaded == old(self).downloaded,
                self.left == old(self).left,
                self.event == old(self).event,
                before == old(self).pieces_availability@,
                forall|k: int| 0 <= k < i ==> self.pieces_availability@[k] == spec_not_requested(#[trigger] before[k]),
                forall|k: int| i <= k < before.len() ==> #[trigger] self.pieces_availability@[k] == before[k],
            decreases before.len() - i,
        {
            let cleared = match copy_status(&self.pieces_availability[i]) {
                PieceStatus::MissingPiece { .. } => PieceStatus::MissingPiece { was_requested: false },
                PieceStatus::PartiallyDownloaded { downloaded_bytes, .. } => PieceStatus::PartiallyDownloaded {
                    downloaded_bytes,
                    was_requested: false,
                },
                PieceStatus::ValidAndAvailablePiece => PieceStatus::ValidAndAvailablePiece,
            };
            self.pieces_availability.set(i, cleared);
            i = i + 1;
        }
        assert(self.pieces_availability@ =~= before.map_values(|p: PieceStatus| spec_not_requested(p)));
    }

    /// Starts the download over for `size_torrent` bytes: the counters are reset, the state is
    /// started, and partly downloaded pieces are missing again.
    pub fn flush_data(&mut self, size_torrent: u64)
        ensures
            final(self).uploaded == 0,
            final(self).downloaded == 0,
            final(self).left == size_torrent,
            final(self).event == StateOfDownload::Started,
            final(self).pieces_availability@ == old(self).pieces_availability@.map_values(|p: PieceStatus| spec_flushed(p)),
    {
        self.uploaded = 0;
        self.downloaded = 0;
        self.left = size_torrent;
        self.event = StateOfDownload::Started;
        let ghost before = self.pieces_availability@;
        let mut i: usize = 0;
        while i < self.pieces_availability.len()
            invariant
                self.pieces_availability@.len() == before.len(),
                0 <= i <= before.len(),
                self.uploaded == 0,
                self.downloaded == 0,
                self.left == size_torrent,
                self.event == StateOfDownload::Started,
                before == old(self).pieces_availability@,
                forall|k: int| 0 <= k < i ==> self.pieces_availability@[k] == spec_flushed(#[trigger] before[k]),
                forall|k: int| i <= k < before.len() ==> #[trigger] self.pieces_availability@[k] == before[k],
            decreases before.len() - i,
        {
            if let PieceStatus::PartiallyDownloaded { .. } = copy_status(&self.pieces_availability[i]) {
                self.pieces_availability.set(i, PieceStatus::MissingPiece { was_requested: false });
            }
            i = i + 1;
        }
        assert(self.pieces_availability@ =~= before.map_values(|p: PieceStatus| spec_flushed(p)));
    }

    /// Whether a block of `amount_of_bytes` bytes from `beginning_byte_index` can be taken for
    /// the piece at `piece_index` without a count overflowing; see [`spec_block_fits`].
    pub fn can_take_block(
        &self,
        torrent_file_data: &TorrentFileData,
        piece_index: usize,
        beginning_byte_index: u32,
        amount_of_bytes: u32,
    ) -> (res: bool)
        requires
            torrent_file_data.well_formed(),
        ensures
            res == (piece_index < self.pieces_availability@.len() ==> spec_block_fits(
                *self,
                self.pieces_availability@[piece_index as int],
                spec_piece_len(torrent_file_data.model(), piece_index as int),
                beginning_byte_index as int,
                amount_of_bytes as int,
            )),
    {
        if piece_index >= self.pieces_availability.len() {
            return true;
        }
        match copy_status(&self.pieces_availability[piece_index]) {
            PieceStatus::MissingPiece { was_requested: true } => {},
            PieceStatus::PartiallyDownloaded { was_requested: true, .. } => {},
            _ => return true,
        }
        let piece_len = match torrent_file_data.calculate_piece_lenght(piece_index) {
            Ok(l) => l,
            Err(_) => return false,
        };
        let amount = amount_of_bytes as u64;
        if self.downloaded > u64::MAX - amount || amount > self.left {
            return false;
        }
        match copy_status(&self.pieces_availability[piece_index]) {
            PieceStatus::PartiallyDownloaded { downloaded_bytes, was_requested: true } => {
                let d = downloaded_bytes as u64;
                d + amount <= 4294967295u64 && d + amount <= piece_len && beginning_byte_index as u64 + amount <= 4294967295u64
            },
            _ => true,
        }
    }

    /// The index of the first piece that may be asked for and that the peer has: missing or
    /// partly downloaded, not asked for, and marked as had in the peer's pieces.
    pub fn look_for_a_missing_piece_index(&self, external_pieces: &Vec<PieceStatus>) -> (res: Option<usize>)
        requires
            external_pieces@.len() >= self.pieces_availability@.len(),
        ensures
            match res {
                Some(i) => i < self.pieces_availability@.len() && spec_is_wanted(self.pieces_availability@, external_pieces@, i as int)
                    && forall|k: int| 0 <= k < i ==> !#[trigger] spec_is_wanted(self.pieces_availability@, external_pieces@, k),
                None => forall|k: int|
                    0 <= k < self.pieces_availability@.len() ==> !#[trigger] spec_is_wanted(self.pieces_availability@, external_pieces@, k),
            },
    {
        let mut i: usize = 0;
        while i < self.pieces_availability.len()
            invariant
                external_pieces@.len() >= self.pieces_availability@.len(),
                0 <= i <= self.pieces_availability@.len(),
                forall|k: int| 0 <= k < i ==> !#[trigger] spec_is_wanted(self.pieces_availability@, external_pieces@, k),
            decreases self.pieces_availability@.len() - i,
        {
            let wanted = is_valid_piece_to_request(&self.pieces_availability[i]);
            if wanted && external_pieces[i] == PieceStatus::ValidAndAvailablePiece {
                return Some(i);
            }
            i = i + 1;
        }
        None
    }
}

} // verus!
