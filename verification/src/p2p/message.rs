use vstd::prelude::*;

verus! {

/// The state of one piece, as a bitfield entry or as local download bookkeeping.
#[derive(PartialEq, Eq, Debug, Clone, Copy, Structural)]
pub enum PieceStatus {
    ValidAndAvailablePiece,
    PartiallyDownloaded { downloaded_bytes: u32, was_requested: bool },
    MissingPiece { was_requested: bool },
}

/// A peer wire protocol message.
#[derive(PartialEq, Eq, Debug, Clone)]
pub enum P2PMessage {
    KeepAlive,
    Choke,
    Unchoke,
    Interested,
    NotInterested,
    Have { piece_index: u32 },
    Bitfield { bitfield: Vec<PieceStatus> },
    Request { piece_index: u32, beginning_byte_index: u32, amount_of_bytes: u32 },
    Piece { piece_index: u32, beginning_byte_index: u32, block: Vec<u8> },
    Cancel { piece_index: u32, beginning_byte_index: u32, amount_of_bytes: u32 },
    Port { listen_port: u32 },
    Handshake { protocol_str: String, info_hash: Vec<u8>, peer_id: Vec<u8> },
}

/// The mathematical value of a [`P2PMessage`].
pub enum MessageModel {
    KeepAlive,
    Choke,
    Unchoke,
    Interested,
    NotInterested,
    Have { piece_index: u32 },
    Bitfield { bitfield: Seq<PieceStatus> },
    Request { piece_index: u32, beginning_byte_index: u32, amount_of_bytes: u32 },
    Piece { piece_index: u32, beginning_byte_index: u32, block: Seq<u8> },
    Cancel { piece_index: u32, beginning_byte_index: u32, amount_of_bytes: u32 },
    Port { listen_port: u32 },
    Handshake { protocol_str: Seq<char>, info_hash: Seq<u8>, peer_id: Seq<u8> },
}

impl View for P2PMessage {
    type V = MessageModel;

    open spec fn view(&self) -> MessageModel {
        match self {
            P2PMessage::KeepAlive => MessageModel::KeepAlive,
            P2PMessage::Choke => MessageModel::Choke,
            P2PMessage::Unchoke => MessageModel::Unchoke,
            P2PMessage::Interested => MessageModel::Interested,
            P2PMessage::NotInterested => MessageModel::NotInterested,
            P2PMessage::Have { piece_index } => MessageModel::Have { piece_index: *piece_index },
            P2PMessage::Bitfield { bitfield } => MessageModel::Bitfield { bitfield: bitfield@ },
            P2PMessage::Request { piece_index, beginning_byte_index, amount_of_bytes } =>
                MessageModel::Request {
                piece_index: *piece_index,
                beginning_byte_index: *beginning_byte_index,
                amount_of_bytes: *amount_of_bytes,
            },
            P2PMessage::Piece { piece_index, beginning_byte_index, block } => MessageModel::Piece {
                piece_index: *piece_index,
                beginning_byte_index: *beginning_byte_index,
                block: block@,
            },
            P2PMessage::Cancel { piece_index, beginning_byte_index, amount_of_bytes } =>
                MessageModel::Cancel {
                piece_index: *piece_index,
                beginning_byte_index: *beginning_byte_index,
                amount_of_bytes: *amount_of_bytes,
            },
            P2PMessage::Port { listen_port } => MessageModel::Port { listen_port: *listen_port },
            P2PMessage::Handshake { protocol_str, info_hash, peer_id } => MessageModel::Handshake {
                protocol_str: protocol_str@,
                info_hash: info_hash@,
                peer_id: peer_id@,
            },
        }
    }
}

/// An error while decoding a message from bytes.
#[derive(PartialEq, Eq, Debug)]
pub enum P2PMessageDecodingError {
    ByteAmount(String),
    FromUsizeToU32(String),
    FromBytesToString(String),
    InvalidId(String),
    InvalidProtocolStr(String),
}

/// The kind of a decoding error, without its description.
#[derive(PartialEq, Eq, Debug, Clone, Copy, Structural)]
pub enum DecodingFailure {
    ByteAmount,
    FromUsizeToU32,
    FromBytesToString,
    InvalidId,
    InvalidProtocolStr,
}

impl P2PMessageDecodingError {
    /// The description that the error carries.
    pub open spec fn text(&self) -> Seq<char> {
        match self {
            P2PMessageDecodingError::ByteAmount(t) => t@,
            P2PMessageDecodingError::FromUsizeToU32(t) => t@,
            P2PMessageDecodingError::FromBytesToString(t) => t@,
            P2PMessageDecodingError::InvalidId(t) => t@,
            P2PMessageDecodingError::InvalidProtocolStr(t) => t@,
        }
    }
}

impl View for P2PMessageDecodingError {
    type V = DecodingFailure;

    open spec fn view(&self) -> DecodingFailure {
        match self {
            P2PMessageDecodingError::ByteAmount(_) => DecodingFailure::ByteAmount,
            P2PMessageDecodingError::FromUsizeToU32(_) => DecodingFailure::FromUsizeToU32,
            P2PMessageDecodingError::FromBytesToString(_) => DecodingFailure::FromBytesToString,
            P2PMessageDecodingError::InvalidId(_) => DecodingFailure::InvalidId,
            P2PMessageDecodingError::InvalidProtocolStr(_) => DecodingFailure::InvalidProtocolStr,
        }
    }
}

/// An error while encoding a message into bytes.
#[derive(PartialEq, Eq, Debug)]
pub enum P2PMessageEncodingError {
    FromUsizeToU32Error(String),
    InvalidProtocolStrError(String),
}

} // verus!
