//! The metadata of a .torrent file: its bytes decoded into a dictionary, and the torrent's
//! data read from it.

use vstd::prelude::*;
use crate::bencoding::decoder::{from_torrent_to_dic, spec_decode_dic};
use crate::bencoding::values::{DicValues, ErrorBencoding};
use super::http_handler::ErrorMsgHttp;
use super::torrent_file_data::{spec_fits, TorrentFileData, TorrentFileDataError};
use super::tracker_response_data::ResponseError;

verus! {

/// What can go wrong reading a .torrent file.
#[derive(Debug, PartialEq, Eq)]
pub enum MetadataError {
    FileNotFound,
    IsNotTorrent,
    Reading,
    TransferToDic(ErrorBencoding),
}

/// What can go wrong in the peer wire protocol with a peer.
#[derive(PartialEq, Eq, Debug, Clone)]
pub enum MsgLogicControlError {
    ConectingWithPeer(String),
    RestartingDownload(String),
    UpdatingBitfield(String),
    LookingForPieces(String),
    CheckingAndSavingHandshake(String),
    ReceivingHanshake(String),
    ReceivingMessage(String),
    SendingHandshake(String),
    SendingMessage(String),
    UpdatingPieceStatus(String),
    StoringBlock(String),
    UpdatingFields(String),
    CalculatingServerPeerIndex(String),
    CalculatingPieceLenght(String),
    SetUpDirectory(String),
}

/// What can go wrong for the client.
#[derive(PartialEq, Eq, Debug)]
pub enum ClientError {
    File(MetadataError),
    HttpCreation(ErrorMsgHttp),
    ConectionError(ErrorMsgHttp),
    TorrentCreation(TorrentFileDataError),
    Response(ResponseError),
    PeerCommunication(MsgLogicControlError),
}

/// The extension of a .torrent file's name.
pub const TORRENT: &'static str = "torrent";

/// Names what `std::path::Path::extension` gives back for a path: the text after the last dot
/// of its final component, or `None` where that component has no such dot.
pub uninterp spec fn spec_file_extension(path: Seq<char>) -> Option<Seq<char>>;

/// Calls `std::path::Path::extension` on a path given as text. The extension of a path that is
/// text is text too, so it is handed back as a `String`.
#[verifier::external_body]
fn file_extension(path: &str) -> (res: Option<String>)
    ensures
        res matches Some(s) ==> spec_file_extension(path@) == Some(s@),
        res is None ==> spec_file_extension(path@) is None,
{
    std::path::Path::new(path).extension().map(|ext| ext.to_string_lossy().to_string())
}

/// Whether a file's name has the extension of a .torrent file.
pub fn check_filename_extension_is_torrent(filename: &str) -> (res: bool)
    ensures
        res == (spec_file_extension(filename@) == Some(TORRENT@)),
{
    match file_extension(filename) {
        Some(ext) => {
            let expected = TORRENT.to_string();
            ext == expected
        },
        None => false,
    }
}

/// The dictionary of a .torrent file's bytes; the decoding error where they are not a
/// bencoded dictionary.
pub fn read_torrent_file_to_dic(metadata: Vec<u8>) -> (res: Result<DicValues, MetadataError>)
    ensures
        match spec_decode_dic(metadata@) {
            Ok(d) => res matches Ok(r) && r@ == d,
            Err(e) => res == Err::<DicValues, MetadataError>(MetadataError::TransferToDic(e)),
        },
{
    match from_torrent_to_dic(metadata) {
        Ok(dic) => Ok(dic),
        Err(error) => Err(MetadataError::TransferToDic(error)),
    }
}

/// Whether reading a .torrent dictionary keeps within the machine's numbers; see
/// [`spec_fits`].
pub fn torrent_dic_fits(dic_torrent: &DicValues) -> (res: bool)
    ensures
        res == spec_fits(dic_torrent@),
{
    let info = match super::torrent_file_data::init_info(dic_torrent) {
        Ok(info) => info,
        Err(_) => return true,
    };
    let name = match super::torrent_file_data::init_name(&info) {
        Ok(name) => name,
        Err(_) => return true,
    };
    let piece_length = match super::torrent_file_data::init_piece_length(&info) {
        Ok(l) => l,
        Err(_) => return true,
    };
    let target = match super::torrent_file_data::init_target_files_data(&info, name) {
        Ok(t) => t,
        Err(_) => return true,
    };
    if piece_length == 0 {
        return false;
    }
    let total = match super::torrent_file_data::checked_total_length(&target) {
        Some(t) => t,
        None => return false,
    };
    let whole = total / piece_length;
    let amount = if total % piece_length > 0 {
        if whole == u64::MAX {
            return false;
        }
        whole + 1
    } else {
        whole
    };
    amount as u128 <= usize::MAX as u128
}

/// The data of a torrent from the bytes of its .torrent file: the file's error where the bytes
/// are not a bencoded dictionary, the torrent's error where the dictionary lacks what a
/// torrent needs.
pub fn create_torrent(metadata: Vec<u8>) -> (res: Result<TorrentFileData, ClientError>)
    requires
        spec_decode_dic(metadata@) matches Ok(d) ==> spec_fits(d),
    ensures
        match spec_decode_dic(metadata@) {
            Err(e) => res == Err::<TorrentFileData, ClientError>(ClientError::File(MetadataError::TransferToDic(e))),
            Ok(d) => match super::torrent_file_data::spec_torrent_file_data(d) {
                Ok(m) => res matches Ok(t) && t.model() == m,
                Err(e) => res == Err::<TorrentFileData, ClientError>(ClientError::TorrentCreation(e)),
            },
        },
{
    let torrent_dic = match read_torrent_file_to_dic(metadata) {
        Ok(dictionary) => dictionary,
        Err(error) => return Err(ClientError::File(error)),
    };
    match TorrentFileData::new(torrent_dic) {
        Ok(torrent) => Ok(torrent),
        Err(error) => Err(ClientError::TorrentCreation(error)),
    }
}

} // verus!
