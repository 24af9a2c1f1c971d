//! The messages the client sends to a peer, checked and encoded into the bytes to write.

use vstd::prelude::*;
use vstd::string::*;
use crate::p2p::constants::PSTR_STRING_HANDSHAKE;
use crate::p2p::encoder::{spec_encode, spec_encoding_text, to_bytes, EncodingFailure};
use crate::p2p::message::{MessageModel, P2PMessage, P2PMessageEncodingError};
use super::torrent_file_data::TorrentFileData;
use super::torrent_status::TorrentStatus;

verus! {

/// The most bytes a request may ask for, and a piece message may carry.
pub const MAX_BLOCK_BYTES: u32 = 131072;

/// What can go wrong sending a message to a peer.
#[derive(PartialEq, Eq, Debug, Clone)]
pub enum MsgSenderError {
    EncondingMessageIntoBytes(String),
    WriteToTcpStream(String),
    ZeroAmountOfBytes(String),
    AmountOfBytesLimitExceeded(String),
    ZeroBlockLength(String),
    BlockLengthLimitExceeded(String),
    NumberConversion(String),
}

/// What can go wrong receiving a message from a peer.
#[derive(PartialEq, Eq, Debug, Clone)]
pub enum MsgReceiverError {
    InternalParsing(String),
    ReadingFromTcpStream(String),
}

/// The description of the error for a request or cancel of no bytes.
pub const ZERO_AMOUNT_TEXT: &'static str = "[MsgSenderError] The amount of bytes cannot be equal zero.";

/// The description of the error for a request or cancel of more than 2^17 bytes.
pub const AMOUNT_LIMIT_TEXT: &'static str = "[MsgSenderError] The amount of bytes must be smaller than 2^17.";

/// The description of the error for a piece message of an empty block.
pub const ZERO_BLOCK_TEXT: &'static str = "[MsgSenderError] The block length cannot be equal zero.";

/// The description of the error for a piece message of a block of more than 2^17 bytes.
pub const BLOCK_LIMIT_TEXT: &'static str = "[MsgSenderError] The block length must be smaller than 2^17.";

/// Checks the length of a request or a cancel: more than zero bytes, at most 2^17.
pub fn check_request_or_cancel_fields(amount_of_bytes: u32) -> (res: Result<(), MsgSenderError>)
    ensures
        amount_of_bytes == 0 ==> (res matches Err(MsgSenderError::ZeroAmountOfBytes(t)) && t@ == ZERO_AMOUNT_TEXT@),
        amount_of_bytes > MAX_BLOCK_BYTES ==> (res matches Err(MsgSenderError::AmountOfBytesLimitExceeded(t)) && t@
            == AMOUNT_LIMIT_TEXT@),
        0 < amount_of_bytes <= MAX_BLOCK_BYTES ==> res is Ok,
{
    if amount_of_bytes == 0 {
        return Err(
            MsgSenderError::ZeroAmountOfBytes(String::from_str(ZERO_AMOUNT_TEXT)),
        );
    }
    if amount_of_bytes > MAX_BLOCK_BYTES {
        return Err(
            MsgSenderError::AmountOfBytesLimitExceeded(
                String::from_str(AMOUNT_LIMIT_TEXT),
            ),
        );
    }
    Ok(())
}

/// Checks the block of a piece message: more than zero bytes, at most 2^17.
pub fn check_piece_fields(block: &[u8]) -> (res: Result<(), MsgSenderError>)
    ensures
        block@.len() == 0 ==> (res matches Err(MsgSenderError::ZeroBlockLength(t)) && t@ == ZERO_BLOCK_TEXT@),
        block@.len() > MAX_BLOCK_BYTES ==> (res matches Err(MsgSenderError::BlockLengthLimitExceeded(t)) && t@
            == BLOCK_LIMIT_TEXT@),
        0 < block@.len() <= MAX_BLOCK_BYTES ==> res is Ok,
{
    if block.len() == 0 {
        return Err(
            MsgSenderError::ZeroBlockLength(String::from_str(ZERO_BLOCK_TEXT)),
        );
    }
    if block.len() > MAX_BLOCK_BYTES as usize {
        return Err(
            MsgSenderError::BlockLengthLimitExceeded(
                String::from_str(BLOCK_LIMIT_TEXT),
            ),
        );
    }
    Ok(())
}

/// How the debug print of an encoding error that a message is too long starts.
pub const TOO_LONG_DEBUG_START: &'static str = "FromUsizeToU32Error(\"";

/// How the debug print of an encoding error of a handshake's protocol string starts.
pub const PROTOCOL_STR_DEBUG_START: &'static str = "InvalidProtocolStrError(\"";

/// How the debug print of an encoding error ends.
pub const ENCODING_DEBUG_END: &'static str = "\")";

/// The encoding error of the given kind, as it is debug printed.
pub open spec fn spec_encoding_debug(f: EncodingFailure) -> Seq<char> {
    let start = match f {
        EncodingFailure::FromUsizeToU32 => TOO_LONG_DEBUG_START@,
        EncodingFailure::InvalidProtocolStr => PROTOCOL_STR_DEBUG_START@,
    };
    start + spec_encoding_text(f) + ENCODING_DEBUG_END@
}

/// Debug prints an encoding error.
fn encoding_debug(e: &P2PMessageEncodingError) -> (res: String)
    ensures
        res@ == match e {
            P2PMessageEncodingError::FromUsizeToU32Error(t) => TOO_LONG_DEBUG_START@ + t@ + ENCODING_DEBUG_END@,
            P2PMessageEncodingError::InvalidProtocolStrError(t) => PROTOCOL_STR_DEBUG_START@ + t@ + ENCODING_DEBUG_END@,
        },
{
    let mut text: String = match e {
        P2PMessageEncodingError::FromUsizeToU32Error(t) => {
            let mut text = String::from_str(TOO_LONG_DEBUG_START);
            text.append(t.as_str());
            text
        },
        P2PMessageEncodingError::InvalidProtocolStrError(t) => {
            let mut text = String::from_str(PROTOCOL_STR_DEBUG_START);
            text.append(t.as_str());
            text
        },
    };
    text.append(ENCODING_DEBUG_END);
    text
}

/// The bytes of a message.
pub fn msg_bytes(msg: P2PMessage) -> (res: Result<Vec<u8>, MsgSenderError>)
    ensures
        match spec_encode(msg@) {
            Ok(b) => res matches Ok(r) && r@ == b,
            Err(f) => res matches Err(MsgSenderError::EncondingMessageIntoBytes(t)) && t@ == spec_encoding_debug(f),
        },
{
    match to_bytes(msg) {
        Ok(bytes) => Ok(bytes),
        Err(e) => Err(MsgSenderError::EncondingMessageIntoBytes(encoding_debug(&e))),
    }
}

/// The bytes of the client's handshake for a torrent.
pub fn handshake_bytes(peer_id: &Vec<u8>, torrent_file_data: &TorrentFileData) -> (res: Result<Vec<u8>, MsgSenderError>)
    ensures
        match spec_encode(
            MessageModel::Handshake {
                protocol_str: PSTR_STRING_HANDSHAKE@,
                info_hash: torrent_file_data.sha1_info_hash@,
                peer_id: peer_id@,
            },
        ) {
            Ok(b) => res matches Ok(r) && r@ == b,
            Err(f) => res matches Err(MsgSenderError::EncondingMessageIntoBytes(t)) && t@ == spec_encoding_debug(f),
        },
{
    msg_bytes(
        P2PMessage::Handshake {
            protocol_str: String::from_str(PSTR_STRING_HANDSHAKE),
            info_hash: torrent_file_data.get_info_hash(),
            peer_id: peer_id.clone(),
        },
    )
}

/// The bytes of a have message.
pub fn have_bytes(completed_piece_index: u32) -> (res: Result<Vec<u8>, MsgSenderError>)
    ensures
        match spec_encode(MessageModel::Have { piece_index: completed_piece_index }) {
            Ok(b) => res matches Ok(r) && r@ == b,
            Err(f) => res matches Err(MsgSenderError::EncondingMessageIntoBytes(t)) && t@ == spec_encoding_debug(f),
        },
{
    msg_bytes(P2PMessage::Have { piece_index: completed_piece_index })
}

/// The bytes of a bitfield message with the client's pieces.
pub fn bitfield_bytes(torrent_status: &TorrentStatus) -> (res: Result<Vec<u8>, MsgSenderError>)
    ensures
        match spec_encode(MessageModel::Bitfield { bitfield: torrent_status.pieces_availability@ }) {
            Ok(b) => res matches Ok(r) && r@ == b,
            Err(f) => res matches Err(MsgSenderError::EncondingMessageIntoBytes(t)) && t@ == spec_encoding_debug(f),
        },
{
    msg_bytes(P2PMessage::Bitfield { bitfield: torrent_status.get_pieces_availability() })
}

/// The bytes of a request message, once its length is checked.
pub fn request_bytes(piece_index: u32, beginning_byte_index: u32, amount_of_bytes: u32) -> (res: Result<Vec<u8>, MsgSenderError>)
    ensures
        amount_of_bytes == 0 ==> res matches Err(MsgSenderError::ZeroAmountOfBytes(_)),
        amount_of_bytes > MAX_BLOCK_BYTES ==> res matches Err(MsgSenderError::AmountOfBytesLimitExceeded(_)),
        0 < amount_of_bytes <= MAX_BLOCK_BYTES ==> match spec_encode(
            MessageModel::Request { piece_index, beginning_byte_index, amount_of_bytes },
        ) {
            Ok(b) => res matches Ok(r) && r@ == b,
            Err(f) => res matches Err(MsgSenderError::EncondingMessageIntoBytes(t)) && t@ == spec_encoding_debug(f),
        },
{
    check_request_or_cancel_fields(amount_of_bytes)?;
    msg_bytes(P2PMessage::Request { piece_index, beginning_byte_index, amount_of_bytes })
}

/// The bytes of a cancel message, once its length is checked.
pub fn cancel_bytes(piece_index: u32, beginning_byte_index: u32, amount_of_bytes: u32) -> (res: Result<Vec<u8>, MsgSenderError>)
    ensures
        amount_of_bytes == 0 ==> res matches Err(MsgSenderError::ZeroAmountOfBytes(_)),
        amount_of_bytes > MAX_BLOCK_BYTES ==> res matches Err(MsgSenderError::AmountOfBytesLimitExceeded(_)),
        0 < amount_of_bytes <= MAX_BLOCK_BYTES ==> match spec_encode(
            MessageModel::Cancel { piece_index, beginning_byte_index, amount_of_bytes },
        ) {
            Ok(b) => res matches Ok(r) && r@ == b,
            Err(f) => res matches Err(MsgSenderError::EncondingMessageIntoBytes(t)) && t@ == spec_encoding_debug(f),
        },
{
    check_request_or_cancel_fields(amount_of_bytes)?;
    msg_bytes(P2PMessage::Cancel { piece_index, beginning_byte_index, amount_of_bytes })
}

/// The bytes of a piece message, once its block is checked.
pub fn piece_bytes(piece_index: u32, beginning_byte_index: u32, block: Vec<u8>) -> (res: Result<Vec<u8>, MsgSenderError>)
    ensures
        block@.len() == 0 ==> res matches Err(MsgSenderError::ZeroBlockLength(_)),
        block@.len() > MAX_BLOCK_BYTES ==> res matches Err(MsgSenderError::BlockLengthLimitExceeded(_)),
        0 < block@.len() <= MAX_BLOCK_BYTES ==> match spec_encode(
            MessageModel::Piece { piece_index, beginning_byte_index, block: block@ },
        ) {
            Ok(b) => res matches Ok(r) && r@ == b,
            Err(f) => res matches Err(MsgSenderError::EncondingMessageIntoBytes(t)) && t@ == spec_encoding_debug(f),
        },
{
    check_piece_fields(block.as_slice())?;
    msg_bytes(P2PMessage::Piece { piece_index, beginning_byte_index, block })
}

} // verus!
