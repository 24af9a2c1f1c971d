use ferris_torrent::bencoding::values::{DicValues, ValuesBencoding};
use ferris_torrent::p2p::message::PieceStatus;
use ferris_torrent::torrent::data_of_download::DataOfDownload;
use ferris_torrent::torrent::peer_data::{generate_empty_bitfield, PeerDataForP2PCommunication};
use ferris_torrent::torrent::torrent_file_data::TorrentFileData;
use ferris_torrent::torrent::torrent_status::{StateOfDownload, TorrentStatus, TorrentStatusError};

fn torrent(total: i64, piece_length: i64, amount: usize) -> TorrentFileData {
    let mut info = DicValues::new();
    info.insert(b"length".to_vec(), ValuesBencoding::Integer(total));
    info.insert(b"name".to_vec(), ValuesBencoding::String(b"file".to_vec()));
    info.insert(b"piece length".to_vec(), ValuesBencoding::Integer(piece_length));
    info.insert(b"pieces".to_vec(), ValuesBencoding::String(vec![0; amount * 20]));
    let mut d = DicValues::new();
    d.insert(b"announce".to_vec(), ValuesBencoding::String(b"http://t.org:1/announce".to_vec()));
    d.insert(b"info".to_vec(), ValuesBencoding::Dic(info));
    TorrentFileData::new(d).unwrap()
}

const MISSING: PieceStatus = PieceStatus::MissingPiece { was_requested: false };

#[test]
fn new_status_has_every_piece_missing() {
    let status = TorrentStatus::new(100, 3);
    assert_eq!(status.get_pieces_availability(), vec![MISSING; 3]);
    assert_eq!(status.get_downloaded_bytes(), 0);
    assert_eq!(status.get_uploaded_bytes(), 0);
    assert_eq!(status.left, 100);
    assert!(status.is_a_missing_piece(2));
    assert!(!status.is_a_missing_piece(3));
    assert!(!status.all_pieces_left());
    assert!(!status.all_pieces_completed());
    assert!(!status.is_torrent_state_set_as_completed());
    assert_eq!(status.get_amount_of_downloaded_pieces(), 0);
    assert_eq!(status.get_piece_status(5), None);
}

#[test]
fn pieces_are_downloaded_block_by_block() {
    let torrent = torrent(40000, 32768, 2);
    let mut status = TorrentStatus::new(40000, 2);
    assert!(matches!(
        status.update_piece_status(&torrent, 0, 0, 16384),
        Err(TorrentStatusError::UpdatingPieceStatus(_))
    ));
    assert_eq!(status.set_piece_as_requested(0), Ok(()));
    assert_eq!(status.calculate_beginning_byte_index(0).is_err(), true);
    assert_eq!(status.update_piece_status(&torrent, 0, 0, 16384), Ok(()));
    assert_eq!(
        status.get_piece_status(0),
        Some(&PieceStatus::PartiallyDownloaded { downloaded_bytes: 16384, was_requested: false })
    );
    assert_eq!(status.calculate_beginning_byte_index(0), Ok(16384));
    assert_eq!(status.calculate_amount_of_bytes_of_block(&torrent, 0, 16384), Ok(16384));
    assert_eq!(status.set_piece_as_requested(0), Ok(()));
    assert_eq!(status.update_piece_status(&torrent, 0, 16384, 16384), Ok(()));
    assert!(status.is_a_valid_and_available_piece(0));
    assert_eq!(status.get_downloaded_bytes(), 32768);
    assert_eq!(status.left, 40000 - 32768);
    assert!(status.all_pieces_left());
    assert!(status.set_piece_as_requested(0).is_err());

    assert_eq!(status.calculate_beginning_byte_index(1), Ok(0));
    assert_eq!(status.calculate_amount_of_bytes_of_block(&torrent, 1, 0), Ok(40000 - 32768));
    status.set_piece_as_requested(1).unwrap();
    assert_eq!(status.update_piece_status(&torrent, 1, 0, 40000 - 32768), Ok(()));
    assert!(status.all_pieces_completed());
    assert!(status.is_torrent_state_set_as_completed());
    assert_eq!(status.event, StateOfDownload::Completed);
    assert_eq!(status.get_amount_of_downloaded_pieces(), 2);
    assert_eq!(status.downloaded + status.left, 40000);
}

#[test]
fn requests_can_be_cleared_and_downloads_flushed() {
    let mut status = TorrentStatus::new(10, 3);
    status.pieces_availability[1] = PieceStatus::PartiallyDownloaded { downloaded_bytes: 4, was_requested: true };
    status.pieces_availability[2] = PieceStatus::ValidAndAvailablePiece;
    status.set_piece_as_requested(0).unwrap();
    status.set_all_pieces_as_not_requested();
    assert_eq!(
        status.get_pieces_availability(),
        vec![
            MISSING,
            PieceStatus::PartiallyDownloaded { downloaded_bytes: 4, was_requested: false },
            PieceStatus::ValidAndAvailablePiece
        ]
    );
    status.increment_uploaded_counter(5);
    status.increment_downloaded_counter(3);
    assert_eq!((status.uploaded, status.downloaded, status.left), (5, 3, 7));
    status.flush_data(10);
    assert_eq!((status.uploaded, status.downloaded, status.left), (0, 0, 10));
    assert_eq!(status.get_pieces_availability(), vec![MISSING, MISSING, PieceStatus::ValidAndAvailablePiece]);
}

#[test]
fn data_of_download_flushes_partial_pieces() {
    let mut data = DataOfDownload::new(50, 2);
    assert!(data.is_a_missing_piece(1));
    data.pieces_availability[0] = PieceStatus::PartiallyDownloaded { downloaded_bytes: 1, was_requested: false };
    data.pieces_availability[1] = PieceStatus::ValidAndAvailablePiece;
    assert!(data.is_a_valid_and_available_piece(1));
    data.flush_data(20);
    assert_eq!(data.pieces_availability, vec![MISSING, PieceStatus::ValidAndAvailablePiece]);
    assert_eq!(data.left, 20);
}

#[test]
fn peer_data_tracks_the_peer_pieces() {
    let t = torrent(40000, 32768, 2);
    let mut peer = PeerDataForP2PCommunication::new(&t, b"peer".to_vec());
    assert_eq!(peer.pieces_availability, generate_empty_bitfield(2));
    assert!(peer.am_choking && peer.peer_choking && !peer.am_interested && !peer.peer_interested);
    assert!(peer.update_piece_status(1, PieceStatus::ValidAndAvailablePiece).is_ok());
    assert!(peer.update_piece_status(2, PieceStatus::ValidAndAvailablePiece).is_err());
    peer.update_pieces_availability(vec![]);
    assert!(peer.pieces_availability.is_empty());
}

#[test]
fn forgetting_requests_undoes_asking_for_a_piece() {
    let mut asked = TorrentStatus::new(100, 4);
    let mut forgotten = TorrentStatus::new(100, 4);
    assert!(asked.set_piece_as_requested(2).is_ok());
    assert_eq!(
        asked.pieces_availability[2],
        PieceStatus::MissingPiece { was_requested: true }
    );
    asked.set_all_pieces_as_not_requested();
    forgotten.set_all_pieces_as_not_requested();
    assert_eq!(asked.pieces_availability, forgotten.pieces_availability);
}

#[test]
fn blocks_of_complete_or_unrequested_pieces_are_refused_as_they_are() {
    let t = torrent(40000, 32768, 2);
    let mut status = TorrentStatus::new(40000, 2);
    status.downloaded = u64::MAX;
    status.left = 0;
    status.pieces_availability[0] = PieceStatus::ValidAndAvailablePiece;
    let before = status.clone();
    assert_eq!(
        status.update_piece_status(&t, 0, 0, u32::MAX),
        Err(TorrentStatusError::UpdatingPieceStatus("[TorrentStatusError] The piece has already been completed.".to_string()))
    );
    assert_eq!(
        status.update_piece_status(&t, 1, 0, u32::MAX),
        Err(TorrentStatusError::UpdatingPieceStatus("[TorrentStatusError] The received piece was not requested before.".to_string()))
    );
    assert_eq!(status, before);
}

#[test]
fn the_count_of_downloaded_pieces_tells_how_far_the_download_is() {
    let mut status = TorrentStatus::new(40000, 2);
    assert_eq!(status.get_amount_of_downloaded_pieces(), 0);
    assert!(!status.all_pieces_left());
    assert!(!status.all_pieces_completed());
    status.pieces_availability[1] = PieceStatus::ValidAndAvailablePiece;
    assert_eq!(status.get_amount_of_downloaded_pieces(), 1);
    assert!(status.all_pieces_left());
    assert!(!status.all_pieces_completed());
    status.pieces_availability[0] = PieceStatus::ValidAndAvailablePiece;
    assert_eq!(status.get_amount_of_downloaded_pieces(), 2);
    assert!(status.all_pieces_completed());
}
