//! What can stop the client's work on a torrent as a whole.

use vstd::prelude::*;
use super::http_handler::ErrorMsgHttp;
use super::logger::LogError;
use super::metadata::MetadataError;
use super::peer_session::InteractionHandlerError;
use super::torrent_file_data::{TargetFilesData, TorrentFileData};

verus! {

/// What can go wrong putting the downloaded pieces together into the target file.
#[derive(Debug, PartialEq, Eq)]
pub enum PiecesAssemblerError {
    SetUpDownloadDirectory(String),
    ReadingAPieceFile(String),
    WritingTargetFile(String),
}

/// The name of the file that the pieces of a torrent are put together into: the torrent's one
/// file. The pieces of a torrent of several files are not put together.
pub fn assembly_target_name(torrent: &TorrentFileData) -> (res: Result<String, PiecesAssemblerError>)
    ensures
        match torrent.target_files_data {
            TargetFilesData::SingleFile { file_name, .. } => res matches Ok(n) && n@ == file_name@,
            TargetFilesData::MultipleFiles { .. } => res matches Err(PiecesAssemblerError::SetUpDownloadDirectory(_)),
        },
{
    match &torrent.target_files_data {
        TargetFilesData::MultipleFiles { .. } => Err(
            PiecesAssemblerError::SetUpDownloadDirectory(
                String::from_str("Piece Assembling for Multiple file torrents not supported yet"),
            ),
        ),
        TargetFilesData::SingleFile { file_name, .. } => Ok(file_name.clone()),
    }
}

/// What can go wrong updating the user interface.
#[derive(Debug, PartialEq, Eq, Clone)]
pub enum UiError {
    AddingTorrent(String),
    UpdatingTorrentInformation(String),
    AddingPeer(String),
    RemovingPeer(String),
    UpdatingPeersState(String),
    UpdatingUpload(String),
    UpdatingDownload(String),
}

/// What can go wrong with the .torrent files given to the client.
#[derive(Debug, PartialEq, Eq)]
pub enum EntryFilesError {
    NoArgs,
    NotFound(String),
    Folder(String),
}

/// What can stop the client's work on a torrent.
#[derive(Debug, PartialEq, Eq)]
pub enum TorrentHandlerError {
    CreatingTorrent(MetadataError),
    UserInterface(UiError),
    CreatingLogger(LogError),
    WritingLogger(String),
    ClosingLogger(String),
    CommunicationWithTracker(ErrorMsgHttp),
    CommunicationWithPeers(InteractionHandlerError),
    JoinHandle(String),
    SetGlobalShutDown(String),
    ReadingShutDownField(String),
    AssemblingTarget(String),
    PiecesHandler(PiecesAssemblerError),
}

} // verus!
