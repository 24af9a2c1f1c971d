use sha1::Digest;
use ferris_torrent::bencoding::values::{DicValues, ValuesBencoding};
use ferris_torrent::p2p::decoder::from_bytes;
use ferris_torrent::p2p::message::{P2PMessage, PieceStatus};
use ferris_torrent::torrent::block_handler::{check_sha1_piece, BlockHandlerError};
use ferris_torrent::torrent::logger::Logger;
use ferris_torrent::torrent::messages::{
    cancel_bytes, check_piece_fields, check_request_or_cancel_fields, have_bytes, piece_bytes,
    request_bytes, MsgSenderError,
};
use ferris_torrent::torrent::peer_data::PeerDataForP2PCommunication;
use ferris_torrent::torrent::peer_session::{
    check_piece_index_and_beginning_byte_index, generate_peer_data_from_handshake_new_peer,
    InteractionHandlerError, InteractionHandlerErrorKind, InteractionHandlerStatus,
    InterestOfReceivedPieceMsg, PeerRole, PeerSession, SessionAction,
};
use ferris_torrent::torrent::port::{update_port, PortBindingError};
use ferris_torrent::torrent::torrent_file_data::TorrentFileData;
use ferris_torrent::torrent::torrent_status::TorrentStatus;

fn torrent(total: i64, piece_length: i64, pieces: Vec<u8>) -> TorrentFileData {
    let mut info = DicValues::new();
    info.insert(b"length".to_vec(), ValuesBencoding::Integer(total));
    info.insert(b"name".to_vec(), ValuesBencoding::String(b"file".to_vec()));
    info.insert(b"piece length".to_vec(), ValuesBencoding::Integer(piece_length));
    info.insert(b"pieces".to_vec(), ValuesBencoding::String(pieces));
    let mut d = DicValues::new();
    d.insert(b"announce".to_vec(), ValuesBencoding::String(b"http://t.org:1/announce".to_vec()));
    d.insert(b"info".to_vec(), ValuesBencoding::Dic(info));
    TorrentFileData::new(d).unwrap()
}

fn session(t: &TorrentFileData) -> PeerSession {
    PeerSession::new(b"client".to_vec(), PeerDataForP2PCommunication::new(t, b"server".to_vec()))
}

#[test]
fn handshakes_must_be_for_the_torrent() {
    let t = torrent(40000, 32768, vec![0; 40]);
    let good = P2PMessage::Handshake {
        protocol_str: "BitTorrent protocol".to_string(),
        info_hash: t.get_info_hash(),
        peer_id: b"server".to_vec(),
    };
    let data = generate_peer_data_from_handshake_new_peer(good, &t).unwrap();
    assert_eq!(data.peer_id, b"server".to_vec());
    assert_eq!(data.pieces_availability.len(), 2);
    let bad = P2PMessage::Handshake {
        protocol_str: "BitTorrent protocol".to_string(),
        info_hash: vec![0; 20],
        peer_id: b"server".to_vec(),
    };
    assert!(matches!(
        generate_peer_data_from_handshake_new_peer(bad, &t),
        Err(InteractionHandlerErrorKind::Recoverable(InteractionHandlerError::CheckingAndSavingHandshake(_)))
    ));
    assert!(generate_peer_data_from_handshake_new_peer(P2PMessage::KeepAlive, &t).is_err());
}

#[test]
fn received_messages_update_the_peer() {
    let t = torrent(40000, 32768, vec![0; 40]);
    let status = TorrentStatus::new(40000, 2);
    let mut s = session(&t);
    assert_eq!(s.update_information_according_to_the_received_msg(&t, &status, &P2PMessage::Unchoke), Ok(SessionAction::Nothing));
    assert!(!s.peer_choking());
    assert_eq!(s.update_information_according_to_the_received_msg(&t, &status, &P2PMessage::Interested), Ok(SessionAction::Nothing));
    assert!(s.peer_interested());
    assert_eq!(s.role, PeerRole::Server);
    assert_eq!(s.update_information_according_to_the_received_msg(&t, &status, &P2PMessage::Have { piece_index: 1 }), Ok(SessionAction::Nothing));
    assert!(s.external_peer_has_a_valid_and_available_piece_on_position(1));
    assert!(s.update_information_according_to_the_received_msg(&t, &status, &P2PMessage::Have { piece_index: 2 }).is_err());
    let bitfield = vec![PieceStatus::ValidAndAvailablePiece, PieceStatus::MissingPiece { was_requested: false }, PieceStatus::MissingPiece { was_requested: false }];
    assert_eq!(s.update_information_according_to_the_received_msg(&t, &status, &P2PMessage::Bitfield { bitfield }), Ok(SessionAction::Nothing));
    assert_eq!(s.external_peer_data.pieces_availability.len(), 2);
    assert!(s.external_peer_has_a_valid_and_available_piece_on_position(0));
}

#[test]
fn client_asks_for_wanted_pieces_and_stores_blocks() {
    let t = torrent(40000, 32768, vec![0; 40]);
    let mut status = TorrentStatus::new(40000, 2);
    let mut s = session(&t);
    assert_eq!(s.look_for_pieces(&t, &status), Ok(SessionAction::SendNotInterested));
    assert!(!s.am_interested());
    s.external_peer_data.pieces_availability[1] = PieceStatus::ValidAndAvailablePiece;
    assert_eq!(s.look_for_pieces(&t, &status), Ok(SessionAction::SendInterested));
    assert!(s.am_interested());
    s.external_peer_data.peer_choking = false;
    let action = s.look_for_pieces(&t, &status).unwrap();
    assert_eq!(action, SessionAction::SendRequest { piece_index: 1, beginning_byte_index: 0, amount_of_bytes: 40000 - 32768 });
    assert_eq!(s.confirm_request_sent(&mut status, 1), Ok(()));
    assert_eq!(
        check_piece_index_and_beginning_byte_index(&status, 1, 0),
        Ok(InterestOfReceivedPieceMsg::IsCorrectlyAsRequested)
    );
    let block = vec![7u8; 40000 - 32768];
    let msg = P2PMessage::Piece { piece_index: 1, beginning_byte_index: 0, block: block.clone() };
    let action = s.update_information_according_to_the_received_msg(&t, &status, &msg).unwrap();
    assert_eq!(action, SessionAction::StoreBlock { piece_index: 1, beginning_byte_index: 0, block: block.clone() });
    assert_eq!(s.record_stored_block(&t, &mut status, 1, 0, block.len()), Ok(true));
    assert!(status.is_a_valid_and_available_piece(1));
    assert_eq!(s.look_for_pieces(&t, &status), Ok(SessionAction::SendNotInterested));
    let short = P2PMessage::Piece { piece_index: 0, beginning_byte_index: 0, block: vec![1, 2] };
    assert!(s.update_information_according_to_the_received_msg(&t, &status, &short).is_err());
}

#[test]
fn server_answers_interest_and_requests() {
    let t = torrent(40000, 32768, vec![0; 40]);
    let mut status = TorrentStatus::new(40000, 2);
    status.pieces_availability[0] = PieceStatus::ValidAndAvailablePiece;
    let mut s = session(&t);
    s.role = PeerRole::Server;
    assert_eq!(s.react_according_to_the_peer_role(&t, &status, &P2PMessage::Interested), Ok(SessionAction::SendUnchoke));
    assert!(!s.am_choking());
    assert_eq!(s.role, PeerRole::Client);
    s.role = PeerRole::Server;
    let request = P2PMessage::Request { piece_index: 0, beginning_byte_index: 0, amount_of_bytes: 16384 };
    assert_eq!(
        s.send_msg_according_to_the_received_msg(&t, &status, &request),
        Ok(SessionAction::SendBlock { piece_index: 0, beginning_byte_index: 0, amount_of_bytes: 16384 })
    );
    let missing = P2PMessage::Request { piece_index: 1, beginning_byte_index: 0, amount_of_bytes: 16384 };
    assert!(matches!(
        s.send_msg_according_to_the_received_msg(&t, &status, &missing),
        Err(InteractionHandlerErrorKind::Recoverable(InteractionHandlerError::SendingRequestedBlock(_)))
    ));
    s.record_upload(&mut status, 16384);
    assert_eq!(status.get_uploaded_bytes(), 16384);
}

#[test]
fn conversations_end_when_nobody_wants_anything() {
    let t = torrent(40000, 32768, vec![0; 40]);
    let mut s = session(&t);
    assert_eq!(s.interaction_status(true, true, true), Some(InteractionHandlerStatus::SecureLocalShutDown));
    assert_eq!(s.interaction_status(false, true, true), Some(InteractionHandlerStatus::SecureGlobalShutDown));
    assert_eq!(s.interaction_status(false, false, true), Some(InteractionHandlerStatus::FinishInteraction));
    assert_eq!(s.interaction_status(false, false, false), Some(InteractionHandlerStatus::LookForAnotherPeer));
    s.external_peer_data.am_interested = true;
    assert_eq!(s.interaction_status(false, false, false), None);
}

#[test]
fn outgoing_messages_are_checked_and_encoded() {
    assert!(matches!(check_request_or_cancel_fields(0), Err(MsgSenderError::ZeroAmountOfBytes(_))));
    assert!(matches!(check_request_or_cancel_fields(131073), Err(MsgSenderError::AmountOfBytesLimitExceeded(_))));
    assert!(check_request_or_cancel_fields(131072).is_ok());
    assert!(matches!(check_piece_fields(&[]), Err(MsgSenderError::ZeroBlockLength(_))));
    assert!(check_piece_fields(&[1]).is_ok());
    assert_eq!(have_bytes(5), Ok(vec![0, 0, 0, 5, 4, 0, 0, 0, 5]));
    let request = request_bytes(1, 2, 3).unwrap();
    assert_eq!(from_bytes(&request), Ok(P2PMessage::Request { piece_index: 1, beginning_byte_index: 2, amount_of_bytes: 3 }));
    assert!(cancel_bytes(1, 2, 0).is_err());
    let piece = piece_bytes(1, 0, vec![9, 9]).unwrap();
    assert_eq!(from_bytes(&piece), Ok(P2PMessage::Piece { piece_index: 1, beginning_byte_index: 0, block: vec![9, 9] }));
}

#[test]
fn pieces_are_checked_against_their_hash() {
    let piece = vec![1u8, 2, 3];
    let mut hasher = sha1::Sha1::new();
    hasher.update(&piece);
    let digest = hasher.finalize().to_vec();
    let t = torrent(3, 3, digest);
    assert_eq!(check_sha1_piece(&t, 0, &piece), Ok(()));
    assert!(matches!(check_sha1_piece(&t, 0, &[1, 2]), Err(BlockHandlerError::CheckingSha1Piece(_))));
}

#[test]
fn logs_and_ports() {
    let logger = Logger::new("temp/logs".to_string(), "mitorrent".to_string()).unwrap();
    assert_eq!(logger.get_log_path(), "temp/logs/mitorrent-logs.txt");
    assert_eq!(update_port(8080), Ok(8081));
    assert_eq!(update_port(9080), Err(PortBindingError::ReachedMaxPortWithoutFindingAnAvailableOne));
}

#[test]
fn session_fields_are_recorded() {
    let t = torrent(40000, 32768, vec![0; 40]);
    let mut s = session(&t);
    let before = s.external_peer_data.clone();
    assert_eq!(s.update_am_choking_field(false), Ok(()));
    assert_eq!(s.update_am_interested_field(true), Ok(()));
    assert_eq!(s.update_peer_choking_field(false), Ok(()));
    assert_eq!(s.update_peer_interested_field(true), Ok(()));
    assert!(!s.am_choking());
    assert!(s.am_interested());
    assert!(!s.peer_choking());
    assert!(s.peer_interested());
    assert_eq!(s.external_peer_data.pieces_availability, before.pieces_availability);
    assert_eq!(s.get_peer_id(), b"client".to_vec());
}

fn storing(text: &str) -> InteractionHandlerErrorKind {
    InteractionHandlerErrorKind::Recoverable(InteractionHandlerError::StoringBlock(text.to_string()))
}

#[test]
fn refused_blocks_say_why() {
    let t = torrent(40000, 32768, vec![0; 40]);
    let mut status = TorrentStatus::new(40000, 2);
    let s = session(&t);
    let block = |piece_index: u32, beginning_byte_index: u32, len: usize| P2PMessage::Piece {
        piece_index,
        beginning_byte_index,
        block: vec![0; len],
    };
    let mut s2 = session(&t);
    assert_eq!(
        s2.update_information_according_to_the_received_msg(&t, &status, &block(0, 0, 16384)),
        Err(storing("[InteractionHandlerError] The received piece was not requested."))
    );
    assert_eq!(
        s2.update_information_according_to_the_received_msg(&t, &status, &block(5, 0, 16384)),
        Err(storing("[InteractionHandlerError] The received piece index is invalid."))
    );
    status.pieces_availability[0] = PieceStatus::PartiallyDownloaded { downloaded_bytes: 16384, was_requested: true };
    assert_eq!(
        s2.update_information_according_to_the_received_msg(&t, &status, &block(0, 20000, 16384)),
        Err(storing("[InteractionHandlerError] The beginning byte index is incorrect."))
    );
    assert_eq!(
        s2.update_information_according_to_the_received_msg(&t, &status, &block(0, 16384, 3)),
        Err(storing("[InteractionHandlerError] Block length is not as expected"))
    );
    // A block of a piece the client already has is ignored, wherever it starts.
    status.pieces_availability[0] = PieceStatus::ValidAndAvailablePiece;
    assert_eq!(
        s2.update_information_according_to_the_received_msg(&t, &status, &block(0, 4000000, 3)),
        Ok(SessionAction::Nothing)
    );
    assert_eq!(
        s.record_stored_block(&t, &mut status, 0, 0, 16384),
        Err(InteractionHandlerErrorKind::Unrecoverable(InteractionHandlerError::StoringBlock(
            "\n    UpdatingPieceStatus(\n    \"[TorrentStatusError] The piece has already been completed.\",\n)\n".to_string()
        )))
    );
}

#[test]
fn refused_requests_say_why() {
    let t = torrent(40000, 32768, vec![0; 40]);
    let mut status = TorrentStatus::new(40000, 2);
    status.pieces_availability[0] = PieceStatus::ValidAndAvailablePiece;
    let mut s = session(&t);
    let sending = |text: &str| {
        Err(InteractionHandlerErrorKind::Recoverable(InteractionHandlerError::SendingRequestedBlock(text.to_string())))
    };
    assert_eq!(s.check_requested_block(&t, &status, 1, 0, 1), sending("[InteractionHandlerError] The local peer does not have the requested block."));
    assert_eq!(s.check_requested_block(&t, &status, 0, 0, 1), sending("[InteractionHandlerError] The external peer who send the request is choked."));
    s.external_peer_data.am_choking = false;
    assert_eq!(
        s.check_requested_block(&t, &status, 0, 32768, 1),
        sending("CheckingRequestBlock(\"[TorrentFileDataError] The requested amount of bytes does not match with piece lenght.\")")
    );
    assert_eq!(
        s.check_requested_block(&t, &status, 0, 0, 16385),
        sending("CheckingRequestBlock(\"[TorrentFileDataError] The requested amount of bytes is bigger than 2^14 bytes.\")")
    );
    assert_eq!(
        s.check_requested_block(&t, &status, 0, u32::MAX, u32::MAX),
        sending("CheckingRequestBlock(\"[TorrentFileDataError] The requested amount of bytes does not match with piece lenght.\")")
    );
    assert_eq!(s.check_requested_block(&t, &status, 0, 16384, 16384), Ok(()));
}
