//! The client's decisions in its conversation with one peer: what a received message changes,
//! what to send next, and when the conversation ends. The messages themselves are read and
//! written by the caller, which performs each returned action.

use vstd::prelude::*;
use vstd::string::*;
use crate::p2p::constants::PSTR_STRING_HANDSHAKE;
use crate::p2p::message::{P2PMessage, PieceStatus};
use super::metadata::MsgLogicControlError;
use super::peer_data::PeerDataForP2PCommunication;
use super::torrent_file_data::{
    spec_bitfield_failure_text, spec_piece_len, TorrentFileData, TorrentFileDataError, BLOCK_BYTES, BLOCK_PAST_PIECE_TEXT,
    BLOCK_TOO_LARGE_TEXT,
};
use super::torrent_status::{
    spec_block_fits, spec_is_valid, spec_is_wanted, spec_piece_after_block, spec_refused_block_text, spec_requested,
    TorrentStatus, TorrentStatusError,
};
use super::tracker_response_data::TrackerResponseData;

verus! {

/// The role of the client towards a peer: it asks for pieces, or it serves them.
#[derive(PartialEq, Eq, Debug, Clone, Copy, Structural)]
pub enum PeerRole {
    Client,
    Server,
}

/// What went wrong in the conversation with a peer.
#[derive(PartialEq, Eq, Debug, Clone)]
pub enum InteractionHandlerError {
    ConectingWithPeer(String),
    RestartingDownload(String),
    UpdatingBitfield(String),
    LookingForPieces(String),
    CheckingAndSavingHandshake(String),
    ReceivingHanshake(String),
    ReceivingMessage(String),
    SendingHandshake(String),
    SendingMessage(String),
    UpdatingPieceStatus(String),
    StoringBlock(String),
    CalculatingServerPeerIndex(String),
    CalculatingPieceLenght(String),
    SetUpDirectory(String),
    SendingRequestedBlock(String),
    LockingTorrentStatus(String),
    JoinHandle(String),
    WritingShutDownField(String),
    ReadingShutDownField(String),
    UpdatingWasRequestedField(String),
    LogError(String),
    UiError(String),
    CalculatingTime(String),
    PiecesHandler(String),
}

/// An error of the conversation, and whether the client may go on with another peer.
#[derive(PartialEq, Eq, Debug, Clone)]
pub enum InteractionHandlerErrorKind {
    Recoverable(InteractionHandlerError),
    Unrecoverable(InteractionHandlerError),
}

/// How a conversation ended.
#[derive(PartialEq, Eq, Debug, Clone, Copy, Structural)]
pub enum InteractionHandlerStatus {
    LookForAnotherPeer,
    FinishInteraction,
    SecureLocalShutDown,
    SecureGlobalShutDown,
}

/// What a received block means for the download.
#[derive(PartialEq, Eq, Debug, Clone, Copy, Structural)]
pub enum InterestOfReceivedPieceMsg {
    AlreadyDownloaded,
    IsCorrectlyAsRequested,
}

/// What the caller does next for the conversation.
#[derive(PartialEq, Eq, Debug)]
pub enum SessionAction {
    Nothing,
    StoreBlock { piece_index: usize, beginning_byte_index: u32, block: Vec<u8> },
    SendInterested,
    SendNotInterested,
    SendRequest { piece_index: usize, beginning_byte_index: u32, amount_of_bytes: u32 },
    SendUnchoke,
    SendBlock { piece_index: u32, beginning_byte_index: u32, amount_of_bytes: u32 },
}

/// The client's side of a conversation with one peer.
#[derive(PartialEq, Eq, Debug)]
pub struct PeerSession {
    pub peer_id: Vec<u8>,
    pub external_peer_data: PeerDataForP2PCommunication,
    pub role: PeerRole,
}

/// A recoverable error of the given kind.
fn recoverable(kind: u8, text: &str) -> (res: InteractionHandlerErrorKind)
    requires
        kind <= KIND_SENDING_MESSAGE,
    ensures
        res matches InteractionHandlerErrorKind::Recoverable(e) && spec_error_kind(e) == kind && spec_error_text(e) == text@,
{
    InteractionHandlerErrorKind::Recoverable(make_error(kind, text))
}

/// A recoverable error of the given kind with a description made at run time.
fn recoverable_with(kind: u8, text: String) -> (res: InteractionHandlerErrorKind)
    requires
        kind <= KIND_SENDING_MESSAGE,
    ensures
        res matches InteractionHandlerErrorKind::Recoverable(e) && spec_error_kind(e) == kind && spec_error_text(e) == text@,
{
    InteractionHandlerErrorKind::Recoverable(make_error_with(kind, text))
}

/// An unrecoverable error of the given kind.
fn unrecoverable(kind: u8, text: &str) -> (res: InteractionHandlerErrorKind)
    requires
        kind <= KIND_SENDING_MESSAGE,
    ensures
        res matches InteractionHandlerErrorKind::Unrecoverable(e) && spec_error_kind(e) == kind && spec_error_text(e) == text@,
{
    InteractionHandlerErrorKind::Unrecoverable(make_error(kind, text))
}

/// An unrecoverable error of the given kind with a description made at run time.
fn unrecoverable_with(kind: u8, text: String) -> (res: InteractionHandlerErrorKind)
    requires
        kind <= KIND_SENDING_MESSAGE,
    ensures
        res matches InteractionHandlerErrorKind::Unrecoverable(e) && spec_error_kind(e) == kind && spec_error_text(e) == text@,
{
    InteractionHandlerErrorKind::Unrecoverable(make_error_with(kind, text))
}

/// The kind of error that checking a handshake gives.
pub const KIND_HANDSHAKE: u8 = 0;

/// The kind of error that storing a block gives.
pub const KIND_STORING: u8 = 1;

/// The kind of error that a bitfield gives.
pub const KIND_BITFIELD: u8 = 2;

/// The kind of error that a have message gives.
pub const KIND_PIECE_STATUS: u8 = 3;

/// The kind of error that sending a requested block gives.
pub const KIND_SENDING_BLOCK: u8 = 4;

/// The kind of error that asking for a piece gives.
pub const KIND_SENDING_MESSAGE: u8 = 5;

/// The kind of an error, as one of the kinds above; other errors have none of them.
pub open spec fn spec_error_kind(e: InteractionHandlerError) -> u8 {
    match e {
        InteractionHandlerError::CheckingAndSavingHandshake(_) => KIND_HANDSHAKE,
        InteractionHandlerError::StoringBlock(_) => KIND_STORING,
        InteractionHandlerError::UpdatingBitfield(_) => KIND_BITFIELD,
        InteractionHandlerError::UpdatingPieceStatus(_) => KIND_PIECE_STATUS,
        InteractionHandlerError::SendingRequestedBlock(_) => KIND_SENDING_BLOCK,
        InteractionHandlerError::SendingMessage(_) => KIND_SENDING_MESSAGE,
        _ => 255,
    }
}

/// The description that an error carries.
pub open spec fn spec_error_text(e: InteractionHandlerError) -> Seq<char> {
    match e {
        InteractionHandlerError::ConectingWithPeer(t) => t@,
        InteractionHandlerError::RestartingDownload(t) => t@,
        InteractionHandlerError::UpdatingBitfield(t) => t@,
        InteractionHandlerError::LookingForPieces(t) => t@,
        InteractionHandlerError::CheckingAndSavingHandshake(t) => t@,
        InteractionHandlerError::ReceivingHanshake(t) => t@,
        InteractionHandlerError::ReceivingMessage(t) => t@,
        InteractionHandlerError::SendingHandshake(t) => t@,
        InteractionHandlerError::SendingMessage(t) => t@,
        InteractionHandlerError::UpdatingPieceStatus(t) => t@,
        InteractionHandlerError::StoringBlock(t) => t@,
        InteractionHandlerError::CalculatingServerPeerIndex(t) => t@,
        InteractionHandlerError::CalculatingPieceLenght(t) => t@,
        InteractionHandlerError::SetUpDirectory(t) => t@,
        InteractionHandlerError::SendingRequestedBlock(t) => t@,
        InteractionHandlerError::LockingTorrentStatus(t) => t@,
        InteractionHandlerError::JoinHandle(t) => t@,
        InteractionHandlerError::WritingShutDownField(t) => t@,
        InteractionHandlerError::ReadingShutDownField(t) => t@,
        InteractionHandlerError::UpdatingWasRequestedField(t) => t@,
        InteractionHandlerError::LogError(t) => t@,
        InteractionHandlerError::UiError(t) => t@,
        InteractionHandlerError::CalculatingTime(t) => t@,
        InteractionHandlerError::PiecesHandler(t) => t@,
    }
}

/// Whether a result is a recoverable error of the given kind with the given description.
pub open spec fn spec_recoverable_text<T>(r: Result<T, InteractionHandlerErrorKind>, kind: u8, text: Seq<char>) -> bool {
    r matches Err(InteractionHandlerErrorKind::Recoverable(e)) && spec_error_kind(e) == kind && spec_error_text(e) == text
}

/// Whether a result is an unrecoverable error of the given kind with the given description.
pub open spec fn spec_unrecoverable_text<T>(r: Result<T, InteractionHandlerErrorKind>, kind: u8, text: Seq<char>) -> bool {
    r matches Err(InteractionHandlerErrorKind::Unrecoverable(e)) && spec_error_kind(e) == kind && spec_error_text(e)
        == text
}

/// An error of the given kind.
fn make_error(kind: u8, text: &str) -> (res: InteractionHandlerError)
    ensures
        kind <= KIND_SENDING_MESSAGE ==> spec_error_kind(res) == kind,
        kind > KIND_SENDING_MESSAGE ==> spec_error_kind(res) == 255,
        spec_error_text(res) == text@,
{
    make_error_with(kind, String::from_str(text))
}

/// An error of the given kind with a description made at run time.
fn make_error_with(kind: u8, t: String) -> (res: InteractionHandlerError)
    ensures
        kind <= KIND_SENDING_MESSAGE ==> spec_error_kind(res) == kind,
        kind > KIND_SENDING_MESSAGE ==> spec_error_kind(res) == 255,
        spec_error_text(res) == t@,
{
    if kind == KIND_HANDSHAKE {
        InteractionHandlerError::CheckingAndSavingHandshake(t)
    } else if kind == KIND_STORING {
        InteractionHandlerError::StoringBlock(t)
    } else if kind == KIND_BITFIELD {
        InteractionHandlerError::UpdatingBitfield(t)
    } else if kind == KIND_PIECE_STATUS {
        InteractionHandlerError::UpdatingPieceStatus(t)
    } else if kind == KIND_SENDING_BLOCK {
        InteractionHandlerError::SendingRequestedBlock(t)
    } else if kind == KIND_SENDING_MESSAGE {
        InteractionHandlerError::SendingMessage(t)
    } else {
        InteractionHandlerError::LogError(t)
    }
}

/// Whether a result is a recoverable error of the given kind.
pub open spec fn spec_recoverable<T>(r: Result<T, InteractionHandlerErrorKind>, kind: u8) -> bool {
    r matches Err(InteractionHandlerErrorKind::Recoverable(e)) && spec_error_kind(e) == kind
}

/// Whether a result is an unrecoverable error of the given kind.
pub open spec fn spec_unrecoverable<T>(r: Result<T, InteractionHandlerErrorKind>, kind: u8) -> bool {
    r matches Err(InteractionHandlerErrorKind::Unrecoverable(e)) && spec_error_kind(e) == kind
}

/// The description of the error for a handshake for another torrent or from another peer.
pub const HANDSHAKE_FIELDS_TEXT: &'static str = "[InteractionHandlerError] The received handshake hasn`t got the expected fields.";

/// The description of the error for a message that should have been a handshake.
pub const NOT_HANDSHAKE_TEXT: &'static str = "[InteractionHandlerError] The received messagge is not a handshake.";

/// The description of the error for a wanted piece too long for its length to fit a `u32`.
pub const REQUEST_LENGTH_UNKNOWN_TEXT: &'static str = "[InteractionHandlerError] The block length cannot be calculated.";

/// The description of the error for a request of a piece whose beginning cannot be found.
pub const REQUEST_BEGIN_UNKNOWN_TEXT: &'static str = "[InteractionHandlerError] The beginning byte index cannot be calculated.";

/// The description of the error for a sent request of a piece that cannot be asked for.
pub const SET_REQUESTED_TEXT: &'static str = "[InteractionHandlerError] The piece cannot be set as requested.";

/// The description of the error for a have message past the peer's pieces.
pub const HAVE_INDEX_TEXT: &'static str = "[InteractionHandlerError] The piece index is out of the peer's bitfield.";

/// How the torrent's error of a refused bitfield starts, as it is displayed.
pub const BITFIELD_DISPLAY_START: &'static str = "\n    CheckingBitfield(\n    \"";

/// The torrent's error of a refused bitfield with the description `t`, as it is displayed.
pub open spec fn spec_bitfield_display(t: Seq<char>) -> Seq<char> {
    BITFIELD_DISPLAY_START@ + t + REFUSED_DISPLAY_END@
}

/// Displays the torrent's error of a refused bitfield.
fn bitfield_display(e: &TorrentFileDataError) -> (res: String)
    ensures
        e matches TorrentFileDataError::CheckingBitfield(t) ==> res@ == spec_bitfield_display(t@),
{
    let mut text = String::from_str(BITFIELD_DISPLAY_START);
    if let TorrentFileDataError::CheckingBitfield(t) = e {
        text.append(t.as_str());
    }
    text.append(REFUSED_DISPLAY_END);
    text
}

/// Checks a peer's handshake: the protocol string of BitTorrent, and the torrent's info hash.
pub fn check_handshake(torrent_file_data: &TorrentFileData, server_protocol_str: &String, server_info_hash: &[u8]) -> (res: Result<(), InteractionHandlerErrorKind>)
    ensures
        res is Ok <==> server_protocol_str@ == PSTR_STRING_HANDSHAKE@ && server_info_hash@ == torrent_file_data.sha1_info_hash@,
        res is Err ==> spec_recoverable_text(res, KIND_HANDSHAKE, HANDSHAKE_FIELDS_TEXT@),
{
    let expected = String::from_str(PSTR_STRING_HANDSHAKE);
    if *server_protocol_str == expected && torrent_file_data.has_expected_info_hash(server_info_hash) {
        Ok(())
    } else {
        Err(recoverable(KIND_HANDSHAKE, HANDSHAKE_FIELDS_TEXT))
    }
}

/// Checks the peer id of a handshake against what the tracker gave for the peer.
pub fn check_peer_id(tracker_response: &TrackerResponseData, tracker_response_peer_index: usize, server_peer_id: &[u8]) -> (res: Result<(), InteractionHandlerErrorKind>)
    ensures
        res is Ok <==> (tracker_response_peer_index < tracker_response.peers@.len() && match tracker_response.peers@[tracker_response_peer_index as int].peer_id {
            Some(id) => id@ == server_peer_id@,
            None => true,
        }),
        res is Err ==> spec_recoverable_text(res, KIND_HANDSHAKE, HANDSHAKE_FIELDS_TEXT@),
{
    if tracker_response.has_expected_peer_id(tracker_response_peer_index, server_peer_id) {
        Ok(())
    } else {
        Err(recoverable(KIND_HANDSHAKE, HANDSHAKE_FIELDS_TEXT))
    }
}

/// The data of a peer that answered the client's handshake: its handshake must be one for the
/// torrent, from the peer the tracker named.
pub fn generate_peer_data_from_handshake_torrent_peer(
    message: P2PMessage,
    torrent_file_data: &TorrentFileData,
    tracker_response: &TrackerResponseData,
    tracker_response_peer_index: usize,
) -> (res: Result<PeerDataForP2PCommunication, InteractionHandlerErrorKind>)
    ensures
        match message {
            P2PMessage::Handshake { protocol_str, info_hash, peer_id } => if protocol_str@ == PSTR_STRING_HANDSHAKE@
                && info_hash@ == torrent_file_data.sha1_info_hash@ && tracker_response_peer_index < tracker_response.peers@.len()
                && match tracker_response.peers@[tracker_response_peer_index as int].peer_id {
                Some(id) => id@ == peer_id@,
                None => true,
            } {
                res matches Ok(p) && spec_new_peer_data(p, torrent_file_data, peer_id@)
            } else {
                spec_recoverable_text(res, KIND_HANDSHAKE, HANDSHAKE_FIELDS_TEXT@)
            },
            _ => spec_recoverable_text(res, KIND_HANDSHAKE, NOT_HANDSHAKE_TEXT@),
        },
{
    if let P2PMessage::Handshake { protocol_str, info_hash, peer_id } = message {
        check_handshake(torrent_file_data, &protocol_str, info_hash.as_slice())?;
        check_peer_id(tracker_response, tracker_response_peer_index, peer_id.as_slice())?;
        Ok(PeerDataForP2PCommunication::new(torrent_file_data, peer_id))
    } else {
        Err(recoverable(KIND_HANDSHAKE, NOT_HANDSHAKE_TEXT))
    }
}

/// The data of a peer that sent the client a handshake: it must be one for the torrent.
pub fn generate_peer_data_from_handshake_new_peer(message: P2PMessage, torrent_file_data: &TorrentFileData) -> (res: Result<PeerDataForP2PCommunication, InteractionHandlerErrorKind>)
    ensures
        match message {
            P2PMessage::Handshake { protocol_str, info_hash, peer_id } => if protocol_str@ == PSTR_STRING_HANDSHAKE@
                && info_hash@ == torrent_file_data.sha1_info_hash@ {
                res matches Ok(p) && spec_new_peer_data(p, torrent_file_data, peer_id@)
            } else {
                spec_recoverable_text(res, KIND_HANDSHAKE, HANDSHAKE_FIELDS_TEXT@)
            },
            _ => spec_recoverable_text(res, KIND_HANDSHAKE, NOT_HANDSHAKE_TEXT@),
        },
{
    if let P2PMessage::Handshake { protocol_str, info_hash, peer_id } = message {
        check_handshake(torrent_file_data, &protocol_str, info_hash.as_slice())?;
        Ok(PeerDataForP2PCommunication::new(torrent_file_data, peer_id))
    } else {
        Err(recoverable(KIND_HANDSHAKE, NOT_HANDSHAKE_TEXT))
    }
}

/// The data of a peer just met: its id, no piece, choked both ways and not interested.
pub open spec fn spec_new_peer_data(p: PeerDataForP2PCommunication, torrent: &TorrentFileData, peer_id: Seq<u8>) -> bool {
    &&& p.peer_id@ == peer_id
    &&& p.pieces_availability@ == Seq::new(
        torrent.total_amount_of_pieces as nat,
        |i: int| PieceStatus::MissingPiece { was_requested: false },
    )
    &&& p.am_choking && !p.am_interested && p.peer_choking && !p.peer_interested
}

/// What a received block means for the download: the piece at `piece_index` must have been
/// asked for; a block before what was downloaded is not needed, one after it is an error.
pub open spec fn spec_interest(status: Seq<PieceStatus>, piece_index: int, begin: int) -> Option<InterestOfReceivedPieceMsg> {
    if piece_index >= status.len() {
        None
    } else {
        match status[piece_index] {
            PieceStatus::MissingPiece { was_requested: true } => Some(InterestOfReceivedPieceMsg::IsCorrectlyAsRequested),
            PieceStatus::MissingPiece { was_requested: false } => None,
            PieceStatus::PartiallyDownloaded { was_requested: false, .. } => None,
            PieceStatus::PartiallyDownloaded { downloaded_bytes, was_requested: true } => if begin > downloaded_bytes {
                None
            } else if begin < downloaded_bytes {
                Some(InterestOfReceivedPieceMsg::AlreadyDownloaded)
            } else {
                Some(InterestOfReceivedPieceMsg::IsCorrectlyAsRequested)
            },
            PieceStatus::ValidAndAvailablePiece => Some(InterestOfReceivedPieceMsg::AlreadyDownloaded),
        }
    }
}

/// The number of bytes the block starting at `begin` of a piece must have: what is left of
/// the piece, at most a block.
pub open spec fn spec_expected_block(torrent: &TorrentFileData, piece_index: int, begin: int) -> int {
    let len = spec_piece_len(torrent.model(), piece_index);
    if len - begin <= BLOCK_BYTES {
        len - begin
    } else {
        BLOCK_BYTES as int
    }
}

/// What asking for pieces does: the client looks for the first piece that it can ask for
/// and the peer has. Where there is none, it says it is not interested. Where there is one,
/// it is interested; where the peer chokes it, it says so; otherwise it asks for the next
/// block of that piece, from the bytes the piece holds, which fails where the piece's length
/// does not fit a `u32`. Only the interest flag changes.
pub open spec fn spec_looked_for_pieces(
    before: PeerSession,
    after: PeerSession,
    torrent: &TorrentFileData,
    status: &TorrentStatus,
    res: Result<SessionAction, InteractionHandlerErrorKind>,
) -> bool {
    let own = status.pieces_availability@;
    let theirs = before.external_peer_data.pieces_availability@;
    &&& after.peer_id == before.peer_id
    &&& after.role == before.role
    &&& after.external_peer_data == (PeerDataForP2PCommunication {
        am_interested: after.external_peer_data.am_interested,
        ..before.external_peer_data
    })
    &&& (forall|k: int| 0 <= k < own.len() ==> !#[trigger] spec_is_wanted(own, theirs, k)) ==> res == Ok::<
        SessionAction,
        InteractionHandlerErrorKind,
    >(SessionAction::SendNotInterested) && !after.external_peer_data.am_interested
    &&& (exists|k: int| 0 <= k < own.len() && #[trigger] spec_is_wanted(own, theirs, k))
        ==> after.external_peer_data.am_interested && if before.external_peer_data.peer_choking {
        res == Ok::<SessionAction, InteractionHandlerErrorKind>(SessionAction::SendInterested)
    } else {
        exists|first: int|
            0 <= first < own.len() && #[trigger] spec_is_wanted(own, theirs, first) && (forall|k: int|
                0 <= k < first ==> !#[trigger] spec_is_wanted(own, theirs, k)) && if spec_piece_len(
                torrent.model(),
                first,
            ) <= u32::MAX {
                res matches Ok(SessionAction::SendRequest { piece_index, beginning_byte_index, amount_of_bytes })
                    && piece_index == first && beginning_byte_index == spec_block_begin(own[first])
                    && amount_of_bytes == spec_expected_block(torrent, first, beginning_byte_index as int)
            } else {
                spec_recoverable_text(res, KIND_SENDING_MESSAGE, REQUEST_LENGTH_UNKNOWN_TEXT@)
            }
    }
}

/// How the client, serving the peer, answers a message: an interested peer is unchoked; a
/// request for a block of a valid piece, within the piece and no longer than a block, while
/// the peer is not choked, is answered with the block, and any other request fails; other
/// messages ask for nothing. Once it answered, the client asks for pieces again.
pub open spec fn spec_answered_msg(
    before: PeerSession,
    after: PeerSession,
    torrent: &TorrentFileData,
    status: &TorrentStatus,
    msg: P2PMessage,
    res: Result<SessionAction, InteractionHandlerErrorKind>,
) -> bool {
    &&& after.peer_id == before.peer_id
    &&& res is Ok ==> after.role == PeerRole::Client
    &&& match msg {
        P2PMessage::Interested => res == Ok::<SessionAction, InteractionHandlerErrorKind>(SessionAction::SendUnchoke)
            && after.external_peer_data == (PeerDataForP2PCommunication { am_choking: false, ..before.external_peer_data }),
        P2PMessage::Request { piece_index, beginning_byte_index, amount_of_bytes } => after.external_peer_data
            == before.external_peer_data && if piece_index < status.pieces_availability@.len() && spec_is_valid(
            status.pieces_availability@[piece_index as int],
        ) && !before.external_peer_data.am_choking && beginning_byte_index + amount_of_bytes <= spec_piece_len(
            torrent.model(),
            piece_index as int,
        ) && amount_of_bytes <= BLOCK_BYTES {
            res == Ok::<SessionAction, InteractionHandlerErrorKind>(
                SessionAction::SendBlock { piece_index, beginning_byte_index, amount_of_bytes },
            )
        } else {
            spec_recoverable_text(
                res,
                KIND_SENDING_BLOCK,
                spec_request_failure_text(
                    torrent,
                    status,
                    before.external_peer_data.am_choking,
                    piece_index as int,
                    beginning_byte_index as int,
                    amount_of_bytes as int,
                ),
            ) && after.role == before.role
        },
        _ => res == Ok::<SessionAction, InteractionHandlerErrorKind>(SessionAction::Nothing) && after.external_peer_data
            == before.external_peer_data,
    }
}

/// The description of the error for a block of a piece that was not asked for.
pub const NOT_REQUESTED_BLOCK_TEXT: &'static str = "[InteractionHandlerError] The received piece was not requested.";

/// The description of the error for a block that starts past the bytes its piece holds.
pub const BAD_BEGIN_TEXT: &'static str = "[InteractionHandlerError] The beginning byte index is incorrect.";

/// The description of the error for a block of a piece the download does not have.
pub const BAD_INDEX_TEXT: &'static str = "[InteractionHandlerError] The received piece index is invalid.";

/// The description of the error for a block of another length than expected.
pub const BLOCK_LENGTH_TEXT: &'static str = "[InteractionHandlerError] Block length is not as expected";

/// The description of the error for a block of a piece too long for its length to fit a
/// `u32`: the download status's error, as it is displayed.
pub const BLOCK_LENGTH_UNKNOWN_TEXT: &'static str =
    "\n    CalculatingAmountOfBytes(\n    \"out of range integral type conversion attempted\",\n)\n";

/// The description of the error for a number that does not fit the type it is converted to.
pub const CONVERSION_TEXT: &'static str = "out of range integral type conversion attempted";

/// How the download status's error of a refused block starts, as it is displayed.
pub const REFUSED_DISPLAY_START: &'static str = "\n    UpdatingPieceStatus(\n    \"";

/// How the download status's error of a refused block ends, as it is displayed.
pub const REFUSED_DISPLAY_END: &'static str = "\",\n)\n";

/// The download status's error of a refused block with the description `t`, as it is
/// displayed.
pub open spec fn spec_refused_display(t: Seq<char>) -> Seq<char> {
    REFUSED_DISPLAY_START@ + t + REFUSED_DISPLAY_END@
}

/// Displays the download status's error of a refused block.
fn refused_display(e: &TorrentStatusError) -> (res: String)
    ensures
        e matches TorrentStatusError::UpdatingPieceStatus(t) ==> res@ == spec_refused_display(t@),
{
    let mut text = String::from_str(REFUSED_DISPLAY_START);
    match e {
        TorrentStatusError::UpdatingPieceStatus(t) => text.append(t.as_str()),
        TorrentStatusError::CalculatingBeginningByteIndex(t) => text.append(t.as_str()),
        TorrentStatusError::CalculatingAmountOfBytes(t) => text.append(t.as_str()),
        TorrentStatusError::CalculatingDownloadedPorcentage(t) => text.append(t.as_str()),
    }
    text.append(REFUSED_DISPLAY_END);
    text
}

/// The description of the error for a request of a piece the client does not have.
pub const NO_BLOCK_TEXT: &'static str = "[InteractionHandlerError] The local peer does not have the requested block.";

/// The description of the error for a request of a peer the client chokes.
pub const CHOKED_TEXT: &'static str = "[InteractionHandlerError] The external peer who send the request is choked.";

/// How the torrent's error of a request outside its piece starts, as it is debug printed.
pub const REQUEST_DEBUG_START: &'static str = "CheckingRequestBlock(\"";

/// How the torrent's error of a request outside its piece ends, as it is debug printed.
pub const REQUEST_DEBUG_END: &'static str = "\")";

/// The description of the error for a request the client does not answer: the piece is not
/// one the client has, the peer is choked, or the torrent's own error for a block past its
/// piece or longer than a block, as it is debug printed.
pub open spec fn spec_request_failure_text(
    torrent: &TorrentFileData,
    status: &TorrentStatus,
    choking: bool,
    piece_index: int,
    begin: int,
    amount: int,
) -> Seq<char> {
    if !(piece_index < status.pieces_availability@.len() && spec_is_valid(status.pieces_availability@[piece_index])) {
        NO_BLOCK_TEXT@
    } else if choking {
        CHOKED_TEXT@
    } else {
        REQUEST_DEBUG_START@ + (if begin + amount > spec_piece_len(torrent.model(), piece_index) {
            BLOCK_PAST_PIECE_TEXT@
        } else {
            BLOCK_TOO_LARGE_TEXT@
        }) + REQUEST_DEBUG_END@
    }
}

/// Debug prints the torrent's error of a request outside its piece.
fn request_debug(e: &TorrentFileDataError) -> (res: String)
    ensures
        e matches TorrentFileDataError::CheckingRequestBlock(t) ==> res@ == REQUEST_DEBUG_START@ + t@ + REQUEST_DEBUG_END@,
{
    let mut text = String::from_str(REQUEST_DEBUG_START);
    if let TorrentFileDataError::CheckingRequestBlock(t) = e {
        text.append(t.as_str());
    }
    text.append(REQUEST_DEBUG_END);
    text
}

/// The description of the error for a received block the download does not take.
pub open spec fn spec_interest_failure_text(status: Seq<PieceStatus>, piece_index: int, begin: int) -> Seq<char> {
    if piece_index >= status.len() {
        BAD_INDEX_TEXT@
    } else {
        match status[piece_index] {
            PieceStatus::PartiallyDownloaded { downloaded_bytes, was_requested: true } => if begin > downloaded_bytes {
                BAD_BEGIN_TEXT@
            } else {
                NOT_REQUESTED_BLOCK_TEXT@
            },
            _ => NOT_REQUESTED_BLOCK_TEXT@,
        }
    }
}

/// Whether a received block, where the download takes it, starts no later than the end of its
/// piece, where the piece's length fits a `u32`.
pub open spec fn spec_block_begin_ok(torrent: &TorrentFileData, status: Seq<PieceStatus>, piece_index: int, begin: int) -> bool {
    spec_interest(status, piece_index, begin) == Some(InterestOfReceivedPieceMsg::IsCorrectlyAsRequested) ==> (
    spec_piece_len(torrent.model(), piece_index) <= u32::MAX ==> begin <= spec_piece_len(torrent.model(), piece_index))
}

/// Where the next block of a piece that can be asked for starts: after the bytes it holds.
pub open spec fn spec_block_begin(p: PieceStatus) -> int {
    match p {
        PieceStatus::PartiallyDownloaded { downloaded_bytes, .. } => downloaded_bytes as int,
        _ => 0,
    }
}

/// What a received block means for the download; see [`spec_interest`].
pub fn check_piece_index_and_beginning_byte_index(torrent_status: &TorrentStatus, piece_index: usize, beginning_byte_index: u32) -> (res: Result<InterestOfReceivedPieceMsg, InteractionHandlerErrorKind>)
    ensures
        match spec_interest(torrent_status.pieces_availability@, piece_index as int, beginning_byte_index as int) {
            Some(i) => res == Ok::<InterestOfReceivedPieceMsg, InteractionHandlerErrorKind>(i),
            None => spec_recoverable_text(
                res,
                KIND_STORING,
                spec_interest_failure_text(torrent_status.pieces_availability@, piece_index as int, beginning_byte_index as int),
            ),
        },
{
    match torrent_status.get_piece_status(piece_index) {
        Some(piece_status) => match *piece_status {
            PieceStatus::MissingPiece { was_requested: true } => Ok(InterestOfReceivedPieceMsg::IsCorrectlyAsRequested),
            PieceStatus::MissingPiece { was_requested: false } => Err(
                recoverable(KIND_STORING, NOT_REQUESTED_BLOCK_TEXT),
            ),
            PieceStatus::PartiallyDownloaded { was_requested: false, .. } => Err(
                recoverable(KIND_STORING, NOT_REQUESTED_BLOCK_TEXT),
            ),
            PieceStatus::PartiallyDownloaded { downloaded_bytes, was_requested: true } => {
                if beginning_byte_index > downloaded_bytes {
                    Err(recoverable(KIND_STORING, BAD_BEGIN_TEXT))
                } else if beginning_byte_index < downloaded_bytes {
                    Ok(InterestOfReceivedPieceMsg::AlreadyDownloaded)
                } else {
                    Ok(InterestOfReceivedPieceMsg::IsCorrectlyAsRequested)
                }
            },
            PieceStatus::ValidAndAvailablePiece => Ok(InterestOfReceivedPieceMsg::AlreadyDownloaded),
        },
        None => Err(recoverable(KIND_STORING, BAD_INDEX_TEXT)),
    }
}

/// Checks the length of a received block: it must be as long as the next block of the piece.
pub fn check_block_lenght(
    torrent_file_data: &TorrentFileData,
    torrent_status: &TorrentStatus,
    piece_index: usize,
    beginning_byte_index: u32,
    block: &[u8],
) -> (res: Result<InterestOfReceivedPieceMsg, InteractionHandlerErrorKind>)
    requires
        torrent_file_data.well_formed(),
        spec_piece_len(torrent_file_data.model(), piece_index as int) <= u32::MAX ==> beginning_byte_index
            <= spec_piece_len(torrent_file_data.model(), piece_index as int),
    ensures
        spec_piece_len(torrent_file_data.model(), piece_index as int) > u32::MAX ==> spec_unrecoverable_text(
            res,
            KIND_STORING,
            BLOCK_LENGTH_UNKNOWN_TEXT@,
        ),
        spec_piece_len(torrent_file_data.model(), piece_index as int) <= u32::MAX ==> if block@.len()
            == spec_expected_block(torrent_file_data, piece_index as int, beginning_byte_index as int) {
            res == Ok::<InterestOfReceivedPieceMsg, InteractionHandlerErrorKind>(InterestOfReceivedPieceMsg::IsCorrectlyAsRequested)
        } else {
            spec_recoverable_text(res, KIND_STORING, BLOCK_LENGTH_TEXT@)
        },
{
    let expected_amount_of_bytes = match torrent_status.calculate_amount_of_bytes_of_block(
        torrent_file_data,
        piece_index,
        beginning_byte_index,
    ) {
        Ok(amount) => amount,
        Err(_) => {
            return Err(unrecoverable(KIND_STORING, BLOCK_LENGTH_UNKNOWN_TEXT));
        },
    };
    if block.len() != expected_amount_of_bytes as usize {
        return Err(recoverable(KIND_STORING, BLOCK_LENGTH_TEXT));
    }
    Ok(InterestOfReceivedPieceMsg::IsCorrectlyAsRequested)
}

/// What checking a received block gives: the error of a block the download does not take,
/// that nothing is to be done for a block already downloaded, and, for a block the piece
/// wants, that it is taken where it has the expected length; a piece too long for its length
/// to fit a `u32` takes no block.
pub open spec fn spec_stored_block_checked(
    torrent: &TorrentFileData,
    status: &TorrentStatus,
    piece_index: int,
    begin: int,
    block: Seq<u8>,
    res: Result<InterestOfReceivedPieceMsg, InteractionHandlerErrorKind>,
) -> bool {
    match spec_interest(status.pieces_availability@, piece_index, begin) {
        None => spec_recoverable_text(res, KIND_STORING, spec_interest_failure_text(status.pieces_availability@, piece_index, begin)),
        Some(InterestOfReceivedPieceMsg::AlreadyDownloaded) => res == Ok::<InterestOfReceivedPieceMsg, InteractionHandlerErrorKind>(
            InterestOfReceivedPieceMsg::AlreadyDownloaded,
        ),
        Some(InterestOfReceivedPieceMsg::IsCorrectlyAsRequested) => if spec_piece_len(torrent.model(), piece_index) > u32::MAX {
            spec_unrecoverable_text(res, KIND_STORING, BLOCK_LENGTH_UNKNOWN_TEXT@)
        } else if block.len() == spec_expected_block(torrent, piece_index, begin) {
            res == Ok::<InterestOfReceivedPieceMsg, InteractionHandlerErrorKind>(InterestOfReceivedPieceMsg::IsCorrectlyAsRequested)
        } else {
            spec_recoverable_text(res, KIND_STORING, BLOCK_LENGTH_TEXT@)
        },
    }
}

/// Checks a received block: where the piece wants it, it must have the right length.
pub fn check_store_block(
    torrent_file_data: &TorrentFileData,
    torrent_status: &TorrentStatus,
    piece_index: usize,
    beginning_byte_index: u32,
    block: &[u8],
) -> (res: Result<InterestOfReceivedPieceMsg, InteractionHandlerErrorKind>)
    requires
        torrent_file_data.well_formed(),
        spec_block_begin_ok(torrent_file_data, torrent_status.pieces_availability@, piece_index as int, beginning_byte_index as int),
    ensures
        spec_stored_block_checked(torrent_file_data, torrent_status, piece_index as int, beginning_byte_index as int, block@, res),
{
    match check_piece_index_and_beginning_byte_index(torrent_status, piece_index, beginning_byte_index) {
        Ok(InterestOfReceivedPieceMsg::IsCorrectlyAsRequested) => {},
        Ok(InterestOfReceivedPieceMsg::AlreadyDownloaded) => {
            return Ok(InterestOfReceivedPieceMsg::AlreadyDownloaded);
        },
        Err(error) => {
            return Err(error);
        },
    }
    check_block_lenght(torrent_file_data, torrent_status, piece_index, beginning_byte_index, block)?;
    Ok(InterestOfReceivedPieceMsg::IsCorrectlyAsRequested)
}

/// Whether every partly downloaded piece holds no more bytes than the piece, where its
/// length fits a `u32`.
pub open spec fn spec_partial_within(torrent: &TorrentFileData, status: Seq<PieceStatus>) -> bool {
    forall|k: int|
        0 <= k < status.len() ==> (#[trigger] status[k] matches PieceStatus::PartiallyDownloaded { downloaded_bytes, .. }
            ==> (spec_piece_len(torrent.model(), k) <= u32::MAX ==> downloaded_bytes <= spec_piece_len(torrent.model(), k)))
}

/// Whether every partly downloaded piece holds no more bytes than the piece; see
/// [`spec_partial_within`].
pub fn partial_pieces_within(torrent_file_data: &TorrentFileData, torrent_status: &TorrentStatus) -> (res: bool)
    requires
        torrent_file_data.well_formed(),
    ensures
        res == spec_partial_within(torrent_file_data, torrent_status.pieces_availability@),
{
    let mut i: usize = 0;
    while i < torrent_status.pieces_availability.len()
        invariant
            torrent_file_data.well_formed(),
            0 <= i <= torrent_status.pieces_availability@.len(),
            forall|k: int|
                0 <= k < i ==> (#[trigger] torrent_status.pieces_availability@[k] matches PieceStatus::PartiallyDownloaded {
                    downloaded_bytes,
                    ..
                } ==> (spec_piece_len(torrent_file_data.model(), k) <= u32::MAX ==> downloaded_bytes <= spec_piece_len(
                    torrent_file_data.model(),
                    k,
                ))),
        decreases torrent_status.pieces_availability@.len() - i,
    {
        if let PieceStatus::PartiallyDownloaded { downloaded_bytes, .. } = torrent_status.pieces_availability[i] {
            let len = match torrent_file_data.calculate_piece_lenght(i) {
                Ok(l) => l,
                Err(_) => {
                    return false;
                },
            };
            if len <= 4294967295u64 && downloaded_bytes as u64 > len {
                return false;
            }
        }
        i = i + 1;
    }
    true
}

impl PeerSession {
    /// A conversation with a peer, the client asking for pieces.
    pub fn new(peer_id: Vec<u8>, external_peer_data: PeerDataForP2PCommunication) -> (res: PeerSession)
        ensures
            res.peer_id == peer_id,
            res.external_peer_data == external_peer_data,
            res.role == PeerRole::Client,
    {
        PeerSession { peer_id, external_peer_data, role: PeerRole::Client }
    }

    /// Whether the client chokes the peer.
    pub fn am_choking(&self) -> (res: bool)
        ensures
            res == self.external_peer_data.am_choking,
    {
        self.external_peer_data.am_choking
    }

    /// Whether the client wants a piece of the peer.
    pub fn am_interested(&self) -> (res: bool)
        ensures
            res == self.external_peer_data.am_interested,
    {
        self.external_peer_data.am_interested
    }

    /// Whether the peer chokes the client.
    pub fn peer_choking(&self) -> (res: bool)
        ensures
            res == self.external_peer_data.peer_choking,
    {
        self.external_peer_data.peer_choking
    }

    /// Whether the peer wants a piece of the client.
    pub fn peer_interested(&self) -> (res: bool)
        ensures
            res == self.external_peer_data.peer_interested,
    {
        self.external_peer_data.peer_interested
    }

    /// Records whether the client chokes the peer.
    pub fn update_am_choking_field(&mut self, new_value: bool) -> (res: Result<(), MsgLogicControlError>)
        ensures
            res is Ok,
            final(self).external_peer_data == (PeerDataForP2PCommunication {
                am_choking: new_value,
                ..old(self).external_peer_data
            }),
            final(self).peer_id == old(self).peer_id,
            final(self).role == old(self).role,
    {
        self.external_peer_data.am_choking = new_value;
        Ok(())
    }

    /// Records whether the client wants a piece of the peer.
    pub fn update_am_interested_field(&mut self, new_value: bool) -> (res: Result<(), MsgLogicControlError>)
        ensures
            res is Ok,
            final(self).external_peer_data == (PeerDataForP2PCommunication {
                am_interested: new_value,
                ..old(self).external_peer_data
            }),
            final(self).peer_id == old(self).peer_id,
            final(self).role == old(self).role,
    {
        self.external_peer_data.am_interested = new_value;
        Ok(())
    }

    /// Records whether the peer chokes the client.
    pub fn update_peer_choking_field(&mut self, new_value: bool) -> (res: Result<(), MsgLogicControlError>)
        ensures
            res is Ok,
            final(self).external_peer_data == (PeerDataForP2PCommunication {
                peer_choking: new_value,
                ..old(self).external_peer_data
            }),
            final(self).peer_id == old(self).peer_id,
            final(self).role == old(self).role,
    {
        self.external_peer_data.peer_choking = new_value;
        Ok(())
    }

    /// Records whether the peer wants a piece of the client.
    pub fn update_peer_interested_field(&mut self, new_value: bool) -> (res: Result<(), MsgLogicControlError>)
        ensures
            res is Ok,
            final(self).external_peer_data == (PeerDataForP2PCommunication {
                peer_interested: new_value,
                ..old(self).external_peer_data
            }),
            final(self).peer_id == old(self).peer_id,
            final(self).role == old(self).role,
    {
        self.external_peer_data.peer_interested = new_value;
        Ok(())
    }

    /// The client's peer id.
    pub fn get_peer_id(&self) -> (res: Vec<u8>)
        ensures
            res@ == self.peer_id@,
    {
        self.peer_id.clone()
    }

    /// Whether the peer has the piece at `position`.
    pub fn external_peer_has_a_valid_and_available_piece_on_position(&self, position: usize) -> (res: bool)
        requires
            position < self.external_peer_data.pieces_availability@.len(),
        ensures
            res == spec_is_valid(self.external_peer_data.pieces_availability@[position as int]),
    {
        self.external_peer_data.pieces_availability[position] == PieceStatus::ValidAndAvailablePiece
    }

    /// Whether the client tells the peer its pieces first: it has at least one.
    pub fn send_bitfield_if_necessary(&self, torrent_status: &TorrentStatus) -> (res: bool)
        ensures
            res == exists|k: int|
                0 <= k < torrent_status.pieces_availability@.len() && #[trigger] spec_is_valid(torrent_status.pieces_availability@[k]),
    {
        torrent_status.all_pieces_left()
    }

    /// Takes the peer's bitfield, cut to the torrent's pieces, once it is checked.
    pub fn update_peer_bitfield(&mut self, torrent_file_data: &TorrentFileData, bitfield: &[PieceStatus]) -> (res: Result<(), InteractionHandlerErrorKind>)
        ensures
            final(self).peer_id == old(self).peer_id,
            final(self).role == old(self).role,
            res is Ok <==> bitfield@.len() >= torrent_file_data.total_amount_of_pieces && !exists|k: int|
                torrent_file_data.total_amount_of_pieces <= k < bitfield@.len() && #[trigger] bitfield@[k]
                    == PieceStatus::ValidAndAvailablePiece,
            res is Ok ==> final(self).external_peer_data == (PeerDataForP2PCommunication {
                pieces_availability: final(self).external_peer_data.pieces_availability,
                ..old(self).external_peer_data
            }) && final(self).external_peer_data.pieces_availability@ == bitfield@.take(
                torrent_file_data.total_amount_of_pieces as int,
            ),
            res is Err ==> spec_recoverable_text(res, KIND_BITFIELD, spec_bitfield_display(spec_bitfield_failure_text(torrent_file_data, bitfield@)))
                && *final(self) == *old(self),
    {
        if let Err(e) = torrent_file_data.check_bitfield(bitfield) {
            return Err(recoverable_with(KIND_BITFIELD, bitfield_display(&e)));
        }
        let total = torrent_file_data.get_total_amount_pieces();
        let mut pieces_availability: Vec<PieceStatus> = Vec::new();
        let mut i: usize = 0;
        while i < total
            invariant
                total <= bitfield@.len(),
                0 <= i <= total,
                pieces_availability@ == bitfield@.take(i as int),
            decreases total - i,
        {
            pieces_availability.push(bitfield[i]);
            i = i + 1;
            assert(pieces_availability@ =~= bitfield@.take(i as int));
        }
        self.external_peer_data.update_pieces_availability(pieces_availability);
        Ok(())
    }

    /// Marks the piece at `piece_index` of the peer with `new_status`, as a have message tells.
    pub fn update_server_peer_piece_status(&mut self, piece_index: usize, new_status: PieceStatus) -> (res: Result<(), InteractionHandlerErrorKind>)
        ensures
            final(self).peer_id == old(self).peer_id,
            final(self).role == old(self).role,
            piece_index < old(self).external_peer_data.pieces_availability@.len() ==> res is Ok
                && final(self).external_peer_data.pieces_availability@ == old(self).external_peer_data.pieces_availability@.update(
                piece_index as int,
                new_status,
            ),
            piece_index >= old(self).external_peer_data.pieces_availability@.len() ==> spec_recoverable_text(res, KIND_PIECE_STATUS, HAVE_INDEX_TEXT@)
                && final(self).external_peer_data.pieces_availability@ == old(self).external_peer_data.pieces_availability@,
            final(self).external_peer_data.am_choking == old(self).external_peer_data.am_choking,
            final(self).external_peer_data.am_interested == old(self).external_peer_data.am_interested,
            final(self).external_peer_data.peer_choking == old(self).external_peer_data.peer_choking,
            final(self).external_peer_data.peer_interested == old(self).external_peer_data.peer_interested,
            final(self).external_peer_data.peer_id == old(self).external_peer_data.peer_id,
    {
        match self.external_peer_data.update_piece_status(piece_index, new_status) {
            Ok(()) => Ok(()),
            Err(_) => Err(recoverable(KIND_PIECE_STATUS, HAVE_INDEX_TEXT)),
        }
    }
}

/// Whether a received piece message, for a piece that takes it, starts within the piece.
pub open spec fn spec_piece_msg_fits(torrent: &TorrentFileData, status: Seq<PieceStatus>, msg: P2PMessage) -> bool {
    msg matches P2PMessage::Piece { piece_index, beginning_byte_index, .. } ==> spec_block_begin_ok(
        torrent,
        status,
        piece_index as int,
        beginning_byte_index as int,
    )
}

/// Whether a received piece message, for a piece that takes it, starts within the piece; see
/// [`spec_piece_msg_fits`].
pub fn piece_msg_fits(torrent_file_data: &TorrentFileData, torrent_status: &TorrentStatus, msg: &P2PMessage) -> (res: bool)
    requires
        torrent_file_data.well_formed(),
    ensures
        res == spec_piece_msg_fits(torrent_file_data, torrent_status.pieces_availability@, *msg),
{
    match msg {
        P2PMessage::Piece { piece_index, beginning_byte_index, .. } => {
            let index = *piece_index as usize;
            match check_piece_index_and_beginning_byte_index(torrent_status, index, *beginning_byte_index) {
                Ok(InterestOfReceivedPieceMsg::IsCorrectlyAsRequested) => match torrent_file_data.calculate_piece_lenght(index) {
                    Ok(length) => length > 4294967295u64 || *beginning_byte_index as u64 <= length,
                    Err(_) => false,
                },
                _ => true,
            }
        },
        _ => true,
    }
}

impl PeerSession {
    /// What a received message changes: the peer's choking and interest flags, the client's
    /// role (a peer that is interested, or that asks for a block, is served), the peer's
    /// pieces (a have or a bitfield message); a block that the download wants is to be stored.
    pub fn update_information_according_to_the_received_msg(
        &mut self,
        torrent_file_data: &TorrentFileData,
        torrent_status: &TorrentStatus,
        received_msg: &P2PMessage,
    ) -> (res: Result<SessionAction, InteractionHandlerErrorKind>)
        requires
            torrent_file_data.well_formed(),
            spec_piece_msg_fits(torrent_file_data, torrent_status.pieces_availability@, *received_msg),
        ensures
            final(self).peer_id == old(self).peer_id,
            match *received_msg {
                P2PMessage::Choke => res == Ok::<SessionAction, InteractionHandlerErrorKind>(SessionAction::Nothing)
                    && final(self).external_peer_data == (PeerDataForP2PCommunication { peer_choking: true, ..old(self).external_peer_data })
                    && final(self).role == old(self).role,
                P2PMessage::Unchoke => res == Ok::<SessionAction, InteractionHandlerErrorKind>(SessionAction::Nothing)
                    && final(self).external_peer_data == (PeerDataForP2PCommunication { peer_choking: false, ..old(self).external_peer_data })
                    && final(self).role == old(self).role,
                P2PMessage::Interested => res == Ok::<SessionAction, InteractionHandlerErrorKind>(SessionAction::Nothing)
                    && final(self).external_peer_data == (PeerDataForP2PCommunication { peer_interested: true, ..old(self).external_peer_data })
                    && final(self).role == PeerRole::Server,
                P2PMessage::NotInterested => res == Ok::<SessionAction, InteractionHandlerErrorKind>(SessionAction::Nothing)
                    && final(self).external_peer_data == (PeerDataForP2PCommunication { peer_interested: false, ..old(self).external_peer_data })
                    && final(self).role == old(self).role,
                P2PMessage::Have { piece_index } => final(self).role == old(self).role && if piece_index
                    < old(self).external_peer_data.pieces_availability@.len() {
                    res == Ok::<SessionAction, InteractionHandlerErrorKind>(SessionAction::Nothing)
                        && final(self).external_peer_data.pieces_availability@ == old(self).external_peer_data.pieces_availability@.update(
                        piece_index as int,
                        PieceStatus::ValidAndAvailablePiece,
                    )
                } else {
                    spec_recoverable_text(res, KIND_PIECE_STATUS, HAVE_INDEX_TEXT@)
                },
                P2PMessage::Bitfield { bitfield } => final(self).role == old(self).role && if bitfield@.len()
                    >= torrent_file_data.total_amount_of_pieces && !exists|k: int|
                    torrent_file_data.total_amount_of_pieces <= k < bitfield@.len() && #[trigger] bitfield@[k]
                        == PieceStatus::ValidAndAvailablePiece {
                    res == Ok::<SessionAction, InteractionHandlerErrorKind>(SessionAction::Nothing)
                        && final(self).external_peer_data.pieces_availability@ == bitfield@.take(
                        torrent_file_data.total_amount_of_pieces as int,
                    )
                } else {
                    spec_recoverable_text(
                        res,
                        KIND_BITFIELD,
                        spec_bitfield_display(spec_bitfield_failure_text(torrent_file_data, bitfield@)),
                    ) && *final(self) == *old(self)
                },
                P2PMessage::Request { .. } => res == Ok::<SessionAction, InteractionHandlerErrorKind>(SessionAction::Nothing)
                    && final(self).external_peer_data == old(self).external_peer_data && final(self).role == PeerRole::Server,
                P2PMessage::Piece { piece_index, beginning_byte_index, block } => *final(self) == *old(self) && match spec_interest(
                    torrent_status.pieces_availability@,
                    piece_index as int,
                    beginning_byte_index as int,
                ) {
                    None => spec_recoverable_text(
                        res,
                        KIND_STORING,
                        spec_interest_failure_text(torrent_status.pieces_availability@, piece_index as int, beginning_byte_index as int),
                    ),
                    Some(InterestOfReceivedPieceMsg::AlreadyDownloaded) => res == Ok::<SessionAction, InteractionHandlerErrorKind>(
                        SessionAction::Nothing,
                    ),
                    Some(InterestOfReceivedPieceMsg::IsCorrectlyAsRequested) => if spec_piece_len(
                        torrent_file_data.model(),
                        piece_index as int,
                    ) > u32::MAX {
                        spec_unrecoverable_text(res, KIND_STORING, BLOCK_LENGTH_UNKNOWN_TEXT@)
                    } else if block@.len() == spec_expected_block(
                        torrent_file_data,
                        piece_index as int,
                        beginning_byte_index as int,
                    ) {
                        res matches Ok(SessionAction::StoreBlock { piece_index: i, beginning_byte_index: b, block: bl })
                            && i == piece_index && b == beginning_byte_index && bl@ == block@
                    } else {
                        spec_recoverable_text(res, KIND_STORING, BLOCK_LENGTH_TEXT@)
                    },
                },
                _ => res == Ok::<SessionAction, InteractionHandlerErrorKind>(SessionAction::Nothing) && *final(self) == *old(self),
            },
    {
        match received_msg {
            P2PMessage::KeepAlive => Ok(SessionAction::Nothing),
            P2PMessage::Choke => {
                self.external_peer_data.peer_choking = true;
                Ok(SessionAction::Nothing)
            },
            P2PMessage::Unchoke => {
                self.external_peer_data.peer_choking = false;
                Ok(SessionAction::Nothing)
            },
            P2PMessage::Interested => {
                self.external_peer_data.peer_interested = true;
                self.role = PeerRole::Server;
                Ok(SessionAction::Nothing)
            },
            P2PMessage::NotInterested => {
                self.external_peer_data.peer_interested = false;
                Ok(SessionAction::Nothing)
            },
            P2PMessage::Have { piece_index } => {
                self.update_server_peer_piece_status(*piece_index as usize, PieceStatus::ValidAndAvailablePiece)?;
                Ok(SessionAction::Nothing)
            },
            P2PMessage::Bitfield { bitfield } => {
                self.update_peer_bitfield(torrent_file_data, bitfield.as_slice())?;
                Ok(SessionAction::Nothing)
            },
            P2PMessage::Request { .. } => {
                self.role = PeerRole::Server;
                Ok(SessionAction::Nothing)
            },
            P2PMessage::Piece { piece_index, beginning_byte_index, block } => {
                match check_store_block(
                    torrent_file_data,
                    torrent_status,
                    *piece_index as usize,
                    *beginning_byte_index,
                    block.as_slice(),
                )? {
                    InterestOfReceivedPieceMsg::AlreadyDownloaded => Ok(SessionAction::Nothing),
                    InterestOfReceivedPieceMsg::IsCorrectlyAsRequested => Ok(
                        SessionAction::StoreBlock {
                            piece_index: *piece_index as usize,
                            beginning_byte_index: *beginning_byte_index,
                            block: block.clone(),
                        },
                    ),
                }
            },
            _ => Ok(SessionAction::Nothing),
        }
    }

    /// Records a stored block of `block_len` bytes in the download; tells whether its piece
    /// is now complete, and so to be checked against its hash.
    pub fn record_stored_block(
        &self,
        torrent_file_data: &TorrentFileData,
        torrent_status: &mut TorrentStatus,
        piece_index: usize,
        beginning_byte_index: u32,
        block_len: usize,
    ) -> (res: Result<bool, InteractionHandlerErrorKind>)
        requires
            torrent_file_data.well_formed(),
            block_len <= u32::MAX ==> (piece_index < old(torrent_status).pieces_availability@.len() ==> spec_block_fits(
                *old(torrent_status),
                old(torrent_status).pieces_availability@[piece_index as int],
                spec_piece_len(torrent_file_data.model(), piece_index as int),
                beginning_byte_index as int,
                block_len as int,
            )),
        ensures
            block_len > u32::MAX ==> spec_unrecoverable_text(res, KIND_STORING, CONVERSION_TEXT@) && *final(torrent_status)
                == *old(torrent_status),
            block_len <= u32::MAX && piece_index < old(torrent_status).pieces_availability@.len() ==> match spec_piece_after_block(
                old(torrent_status).pieces_availability@[piece_index as int],
                spec_piece_len(torrent_file_data.model(), piece_index as int),
                beginning_byte_index as int,
                block_len as int,
            ) {
                Some(p) => res == Ok::<bool, InteractionHandlerErrorKind>(spec_is_valid(p)) && final(torrent_status).pieces_availability@
                    == old(torrent_status).pieces_availability@.update(piece_index as int, p) && final(torrent_status).downloaded
                    == old(torrent_status).downloaded + block_len,
                None => spec_unrecoverable_text(
                    res,
                    KIND_STORING,
                    spec_refused_display(spec_refused_block_text(old(torrent_status).pieces_availability@[piece_index as int])),
                ) && *final(torrent_status) == *old(torrent_status),
            },
            block_len <= u32::MAX && piece_index >= old(torrent_status).pieces_availability@.len() ==> res == Ok::<
                bool,
                InteractionHandlerErrorKind,
            >(false),
            final(torrent_status).downloaded + final(torrent_status).left == old(torrent_status).downloaded + old(
                torrent_status,
            ).left,
    {
        if block_len > 4294967295usize {
            return Err(unrecoverable(KIND_STORING, CONVERSION_TEXT));
        }
        match torrent_status.update_piece_status(torrent_file_data, piece_index, beginning_byte_index, block_len as u32) {
            Ok(()) => Ok(torrent_status.is_a_valid_and_available_piece(piece_index)),
            Err(e) => Err(unrecoverable_with(KIND_STORING, refused_display(&e))),
        }
    }

    /// Decides what to ask the peer for: the first piece the client wants and the peer has;
    /// where the peer chokes the client, the client says it is interested; otherwise it asks
    /// for the next block of that piece. Where there is no such piece, the client says it is
    /// not interested.
    pub fn look_for_pieces(&mut self, torrent_file_data: &TorrentFileData, torrent_status: &TorrentStatus) -> (res: Result<SessionAction, InteractionHandlerErrorKind>)
        requires
            torrent_file_data.well_formed(),
            old(self).external_peer_data.pieces_availability@.len() >= torrent_status.pieces_availability@.len(),
            spec_partial_within(torrent_file_data, torrent_status.pieces_availability@),
        ensures
            spec_looked_for_pieces(*old(self), *final(self), torrent_file_data, torrent_status, res),
    {
        match torrent_status.look_for_a_missing_piece_index(&self.external_peer_data.pieces_availability) {
            Some(piece_index) => {
                self.external_peer_data.am_interested = true;
                if self.external_peer_data.peer_choking {
                    return Ok(SessionAction::SendInterested);
                }
                let beginning_byte_index = match torrent_status.calculate_beginning_byte_index(piece_index) {
                    Ok(b) => b,
                    Err(_) => {
                        return Err(recoverable(KIND_SENDING_MESSAGE, REQUEST_BEGIN_UNKNOWN_TEXT));
                    },
                };
                proof {
                    super::torrent_file_data::lemma_pieces_cover(
                        torrent_file_data.total_length as int,
                        torrent_file_data.piece_length as int,
                    );
                }
                assert(torrent_status.pieces_availability@[piece_index as int] matches PieceStatus::PartiallyDownloaded {
                    downloaded_bytes,
                    ..
                } ==> (spec_piece_len(torrent_file_data.model(), piece_index as int) <= u32::MAX ==> downloaded_bytes
                    <= spec_piece_len(torrent_file_data.model(), piece_index as int)));
                let amount_of_bytes = match torrent_status.calculate_amount_of_bytes_of_block(
                    torrent_file_data,
                    piece_index,
                    beginning_byte_index,
                ) {
                    Ok(a) => a,
                    Err(_) => {
                        return Err(recoverable(KIND_SENDING_MESSAGE, REQUEST_LENGTH_UNKNOWN_TEXT));
                    },
                };
                Ok(SessionAction::SendRequest { piece_index, beginning_byte_index, amount_of_bytes })
            },
            None => {
                self.external_peer_data.am_interested = false;
                Ok(SessionAction::SendNotInterested)
            },
        }
    }

    /// Marks the piece of a sent request as asked for.
    pub fn confirm_request_sent(&self, torrent_status: &mut TorrentStatus, piece_index: usize) -> (res: Result<(), InteractionHandlerErrorKind>)
        ensures
            final(torrent_status).downloaded == old(torrent_status).downloaded,
            final(torrent_status).left == old(torrent_status).left,
            final(torrent_status).uploaded == old(torrent_status).uploaded,
            final(torrent_status).event == old(torrent_status).event,
            if piece_index < old(torrent_status).pieces_availability@.len() && !spec_is_valid(
                old(torrent_status).pieces_availability@[piece_index as int],
            ) {
                res is Ok && final(torrent_status).pieces_availability@ == old(torrent_status).pieces_availability@.update(
                    piece_index as int,
                    spec_requested(old(torrent_status).pieces_availability@[piece_index as int]),
                )
            } else {
                spec_unrecoverable_text(res, KIND_SENDING_MESSAGE, SET_REQUESTED_TEXT@) && final(torrent_status).pieces_availability@ == old(
                    torrent_status,
                ).pieces_availability@
            },
    {
        match torrent_status.set_piece_as_requested(piece_index) {
            Ok(()) => Ok(()),
            Err(_) => Err(unrecoverable(KIND_SENDING_MESSAGE, SET_REQUESTED_TEXT)),
        }
    }

    /// Checks a peer's request: the client has the piece, does not choke the peer, and the
    /// request is for a block within the piece.
    pub fn check_requested_block(
        &self,
        torrent_file_data: &TorrentFileData,
        torrent_status: &TorrentStatus,
        piece_index: u32,
        beginning_byte_index: u32,
        amount_of_bytes: u32,
    ) -> (res: Result<(), InteractionHandlerErrorKind>)
        requires
            torrent_file_data.well_formed(),
        ensures
            res is Ok <==> piece_index < torrent_status.pieces_availability@.len() && spec_is_valid(
                torrent_status.pieces_availability@[piece_index as int],
            ) && !self.external_peer_data.am_choking && beginning_byte_index + amount_of_bytes <= spec_piece_len(
                torrent_file_data.model(),
                piece_index as int,
            ) && amount_of_bytes <= BLOCK_BYTES,
            res is Err ==> spec_recoverable_text(
                res,
                KIND_SENDING_BLOCK,
                spec_request_failure_text(
                    torrent_file_data,
                    torrent_status,
                    self.external_peer_data.am_choking,
                    piece_index as int,
                    beginning_byte_index as int,
                    amount_of_bytes as int,
                ),
            ),
    {
        let index = piece_index as usize;
        if !torrent_status.is_a_valid_and_available_piece(index) {
            return Err(recoverable(KIND_SENDING_BLOCK, NO_BLOCK_TEXT));
        }
        if self.am_choking() {
            return Err(recoverable(KIND_SENDING_BLOCK, CHOKED_TEXT));
        }
        match torrent_file_data.check_requested_block(index, beginning_byte_index, amount_of_bytes) {
            Ok(()) => Ok(()),
            Err(e) => Err(recoverable_with(KIND_SENDING_BLOCK, request_debug(&e))),
        }
    }

    /// Decides how the client, serving the peer, answers a message: an interested peer is
    /// unchoked, a valid request is answered with its block; afterwards the client asks for
    /// pieces again.
    pub fn send_msg_according_to_the_received_msg(
        &mut self,
        torrent_file_data: &TorrentFileData,
        torrent_status: &TorrentStatus,
        received_msg: &P2PMessage,
    ) -> (res: Result<SessionAction, InteractionHandlerErrorKind>)
        requires
            torrent_file_data.well_formed(),
        ensures
            spec_answered_msg(*old(self), *final(self), torrent_file_data, torrent_status, *received_msg, res),
    {
        let action = match received_msg {
            P2PMessage::Interested => {
                self.external_peer_data.am_choking = false;
                SessionAction::SendUnchoke
            },
            P2PMessage::Request { piece_index, beginning_byte_index, amount_of_bytes } => {
                self.check_requested_block(
                    torrent_file_data,
                    torrent_status,
                    *piece_index,
                    *beginning_byte_index,
                    *amount_of_bytes,
                )?;
                SessionAction::SendBlock {
                    piece_index: *piece_index,
                    beginning_byte_index: *beginning_byte_index,
                    amount_of_bytes: *amount_of_bytes,
                }
            },
            _ => SessionAction::Nothing,
        };
        self.role = PeerRole::Client;
        Ok(action)
    }

    /// Decides what the client sends next, by its role: it asks for pieces as a client, and
    /// answers the message as a server.
    pub fn react_according_to_the_peer_role(
        &mut self,
        torrent_file_data: &TorrentFileData,
        torrent_status: &TorrentStatus,
        received_msg: &P2PMessage,
    ) -> (res: Result<SessionAction, InteractionHandlerErrorKind>)
        requires
            torrent_file_data.well_formed(),
            old(self).external_peer_data.pieces_availability@.len() >= torrent_status.pieces_availability@.len(),
            spec_partial_within(torrent_file_data, torrent_status.pieces_availability@),
        ensures
            old(self).role == PeerRole::Client ==> spec_looked_for_pieces(
                *old(self),
                *final(self),
                torrent_file_data,
                torrent_status,
                res,
            ),
            old(self).role == PeerRole::Server ==> spec_answered_msg(
                *old(self),
                *final(self),
                torrent_file_data,
                torrent_status,
                *received_msg,
                res,
            ),
    {
        match self.role {
            PeerRole::Client => self.look_for_pieces(torrent_file_data, torrent_status),
            PeerRole::Server => self.send_msg_according_to_the_received_msg(torrent_file_data, torrent_status, received_msg),
        }
    }

    /// Counts the bytes of a block sent to the peer as uploaded.
    pub fn record_upload(&self, torrent_status: &mut TorrentStatus, amount_of_bytes: u32)
        requires
            old(torrent_status).uploaded + amount_of_bytes <= u64::MAX,
        ensures
            final(torrent_status).uploaded == old(torrent_status).uploaded + amount_of_bytes,
            final(torrent_status).downloaded == old(torrent_status).downloaded,
            final(torrent_status).left == old(torrent_status).left,
            final(torrent_status).pieces_availability@ == old(torrent_status).pieces_availability@,
    {
        torrent_status.increment_uploaded_counter(amount_of_bytes as u64);
    }

    /// Whether the conversation ends, and how: a shutdown ends it; so does a finished
    /// download with a peer that wants nothing, and a conversation in which neither side
    /// wants anything, after which the client looks for another peer.
    pub fn interaction_status(&self, local_shut_down: bool, global_shut_down: bool, completed: bool) -> (res: Option<InteractionHandlerStatus>)
        ensures
            res == (if local_shut_down {
                Some(InteractionHandlerStatus::SecureLocalShutDown)
            } else if global_shut_down {
                Some(InteractionHandlerStatus::SecureGlobalShutDown)
            } else if completed && !self.external_peer_data.peer_interested {
                Some(InteractionHandlerStatus::FinishInteraction)
            } else if !self.external_peer_data.am_interested && !self.external_peer_data.peer_interested {
                Some(InteractionHandlerStatus::LookForAnotherPeer)
            } else {
                None
            }),
    {
        if local_shut_down {
            Some(InteractionHandlerStatus::SecureLocalShutDown)
        } else if global_shut_down {
            Some(InteractionHandlerStatus::SecureGlobalShutDown)
        } else if completed && !self.peer_interested() {
            Some(InteractionHandlerStatus::FinishInteraction)
        } else if !self.am_interested() && !self.peer_interested() {
            Some(InteractionHandlerStatus::LookForAnotherPeer)
        } else {
            None
        }
    }
}

} // verus!
