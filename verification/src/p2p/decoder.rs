//! Decoding of peer wire protocol messages from the bytes read off a socket.

use vstd::prelude::*;
use vstd::slice::slice_subrange;
use vstd::slice::slice_to_vec;
use crate::p2p::constants::{
    ID_BITFIELD, ID_CANCEL, ID_CHOKE, ID_HAVE, ID_INTERESTED, ID_NOT_INTERESTED, ID_PIECE,
    ID_PORT, ID_REQUEST, ID_UNCHOKE, MIN_BYTES_OF_A_P2P_MSG, NEEDED_NUM_OF_BYTES_TO_CONCATENATE,
    NUM_OF_BYTES_LENGHT_PREFIX, PSTRLEN_VALUE_HANDSHAKE, PSTR_BYTES_HANDSHAKE,
    PSTR_STRING_HANDSHAKE, TOTAL_NUM_OF_BYTES_HANDSHAKE,
};
use crate::p2p::message::{DecodingFailure, MessageModel, P2PMessage, P2PMessageDecodingError, PieceStatus};

verus! {

/// The description of the error for a number of bytes other than four to join into a `u32`.
pub const CONCATENATE_TEXT: &'static str =
    "[P2PMessageDecodingError] Invalid amount of bytes to concatenate into an u32 (4 are required)";

/// The description of the error for a message of fewer than four bytes.
pub const TOO_SHORT_TEXT: &'static str =
    "[P2PMessageDecodingError] The P2P msg to decode does not have enough bytes (min. 4 required)";

/// The description of the error for a message whose length prefix does not match its length.
pub const LENGTH_MISMATCH_TEXT: &'static str =
    "[P2PMessageDecodingError] The true length of the P2P msg does not match the one given in the length prefix";

/// The description of the error for a message with an unknown id.
pub const INVALID_ID_TEXT: &'static str = "[P2PMessageDecodingError] Tried to decode a message with invalid ID";

/// The description of the error for a message too long for its length to fit a `u32`.
pub const CONVERSION_TEXT: &'static str = "[P2PMessageDecodingError] TryFromIntError(())";

/// The big endian value of four bytes.
pub open spec fn spec_be_u32(b: Seq<u8>) -> int {
    b[0] as int * 16777216 + b[1] as int * 65536 + b[2] as int * 256 + b[3] as int
}

/// `b` shifted left by `j` bits, keeping the low eight bits.
pub open spec fn spec_shl(b: u8, j: nat) -> int
    decreases j,
{
    if j == 0 {
        b as int
    } else {
        (spec_shl(b, (j - 1) as nat) * 2) % 256
    }
}

/// Whether bit `j` of `b` is set, counting from the most significant bit.
pub open spec fn spec_bit_is_set(b: u8, j: nat) -> bool {
    spec_shl(b, j) >= 128
}

/// The piece status that bit `k` of a bitfield stands for.
pub open spec fn spec_bitfield_entry(bytes: Seq<u8>, k: int) -> PieceStatus {
    if spec_bit_is_set(bytes[k / 8], (k % 8) as nat) {
        PieceStatus::ValidAndAvailablePiece
    } else {
        PieceStatus::MissingPiece { was_requested: false }
    }
}

/// The bitfield that a payload of bytes stands for: eight entries per byte, most significant bit first.
pub open spec fn spec_bitfield(bytes: Seq<u8>) -> Seq<PieceStatus> {
    Seq::new(bytes.len() * 8, |k: int| spec_bitfield_entry(bytes, k))
}

/// Whether the bytes have the shape of a handshake: 68 bytes, `pstrlen` 19 and the protocol string.
pub open spec fn spec_is_handshake(b: Seq<u8>) -> bool {
    &&& b.len() == TOTAL_NUM_OF_BYTES_HANDSHAKE
    &&& b[0] == PSTRLEN_VALUE_HANDSHAKE
    &&& b.subrange(1, 20) == PSTR_BYTES_HANDSHAKE@
}

/// The handshake message that 68 bytes stand for.
pub open spec fn spec_handshake(b: Seq<u8>) -> MessageModel {
    MessageModel::Handshake {
        protocol_str: PSTR_STRING_HANDSHAKE@,
        info_hash: b.subrange(28, 48),
        peer_id: b.subrange(48, 68),
    }
}

/// Whether a payload is long enough for the fields that the message `id` reads from it.
pub open spec fn spec_payload_fits(id: u8, payload_len: int) -> bool {
    if id == ID_HAVE {
        payload_len >= 4
    } else if id == ID_REQUEST || id == ID_CANCEL {
        payload_len >= 12
    } else if id == ID_PIECE {
        payload_len >= 8
    } else if id == ID_PORT {
        payload_len >= 2
    } else {
        true
    }
}

/// The message that an id and its payload stand for.
pub open spec fn spec_decode_by_id(id: u8, p: Seq<u8>) -> Result<MessageModel, DecodingFailure> {
    if !spec_payload_fits(id, p.len() as int) {
        Err(DecodingFailure::ByteAmount)
    } else if id == ID_CHOKE {
        Ok(MessageModel::Choke)
    } else if id == ID_UNCHOKE {
        Ok(MessageModel::Unchoke)
    } else if id == ID_INTERESTED {
        Ok(MessageModel::Interested)
    } else if id == ID_NOT_INTERESTED {
        Ok(MessageModel::NotInterested)
    } else if id == ID_HAVE {
        Ok(MessageModel::Have { piece_index: spec_be_u32(p.subrange(0, 4)) as u32 })
    } else if id == ID_BITFIELD {
        Ok(MessageModel::Bitfield { bitfield: spec_bitfield(p) })
    } else if id == ID_REQUEST {
        Ok(MessageModel::Request {
            piece_index: spec_be_u32(p.subrange(0, 4)) as u32,
            beginning_byte_index: spec_be_u32(p.subrange(4, 8)) as u32,
            amount_of_bytes: spec_be_u32(p.subrange(8, 12)) as u32,
        })
    } else if id == ID_PIECE {
        Ok(MessageModel::Piece {
            piece_index: spec_be_u32(p.subrange(0, 4)) as u32,
            beginning_byte_index: spec_be_u32(p.subrange(4, 8)) as u32,
            block: p.subrange(8, p.len() as int),
        })
    } else if id == ID_CANCEL {
        Ok(MessageModel::Cancel {
            piece_index: spec_be_u32(p.subrange(0, 4)) as u32,
            beginning_byte_index: spec_be_u32(p.subrange(4, 8)) as u32,
            amount_of_bytes: spec_be_u32(p.subrange(8, 12)) as u32,
        })
    } else if id == ID_PORT {
        Ok(MessageModel::Port { listen_port: (p[0] as int * 256 + p[1] as int) as u32 })
    } else {
        Err(DecodingFailure::InvalidId)
    }
}

/// The outcome of decoding a whole message from bytes.
pub open spec fn spec_decode(b: Seq<u8>) -> Result<MessageModel, DecodingFailure> {
    if b.len() < MIN_BYTES_OF_A_P2P_MSG {
        Err(DecodingFailure::ByteAmount)
    } else if spec_is_handshake(b) {
        Ok(spec_handshake(b))
    } else if b.len() - 4 > u32::MAX {
        Err(DecodingFailure::FromUsizeToU32)
    } else if b.len() - 4 != spec_be_u32(b.subrange(0, 4)) {
        Err(DecodingFailure::ByteAmount)
    } else if b.len() == 4 {
        Ok(MessageModel::KeepAlive)
    } else {
        spec_decode_by_id(b[4], b.subrange(5, b.len() as int))
    }
}

/// The description of the error of decoding a message by its id and payload: a payload too
/// short for the fields that the id reads, or an unknown id.
pub open spec fn spec_decode_by_id_text(id: u8, p: Seq<u8>) -> Seq<char> {
    if !spec_payload_fits(id, p.len() as int) {
        CONCATENATE_TEXT@
    } else {
        INVALID_ID_TEXT@
    }
}

/// The description of the error of decoding a whole message, where decoding fails.
pub open spec fn spec_decode_text(b: Seq<u8>) -> Seq<char> {
    if b.len() < MIN_BYTES_OF_A_P2P_MSG {
        TOO_SHORT_TEXT@
    } else if b.len() - 4 > u32::MAX {
        CONVERSION_TEXT@
    } else if b.len() - 4 != spec_be_u32(b.subrange(0, 4)) {
        LENGTH_MISMATCH_TEXT@
    } else {
        spec_decode_by_id_text(b[4], b.subrange(5, b.len() as int))
    }
}

/// Joins four big endian bytes into a `u32`; fails unless exactly four bytes are given.
pub fn concatenate_bytes_into_u32(bytes: &[u8]) -> (res: Result<u32, P2PMessageDecodingError>)
    ensures
        bytes@.len() == 4 <==> res is Ok,
        res matches Ok(v) ==> v == spec_be_u32(bytes@),
        res matches Err(e) ==> e@ == DecodingFailure::ByteAmount && e.text() == CONCATENATE_TEXT@,
{
    if bytes.len() != NEEDED_NUM_OF_BYTES_TO_CONCATENATE {
        return Err(P2PMessageDecodingError::ByteAmount(String::from_str(CONCATENATE_TEXT)));
    }
    let concatenation: u32 = (bytes[0] as u32) * 16777216 + (bytes[1] as u32) * 65536
        + (bytes[2] as u32) * 256 + (bytes[3] as u32);
    Ok(concatenation)
}

/// Whether the bytes have the shape of a handshake.
pub fn is_handshake(bytes: &[u8]) -> (res: bool)
    ensures
        res == spec_is_handshake(bytes@),
{
    if bytes.len() != TOTAL_NUM_OF_BYTES_HANDSHAKE {
        return false;
    }
    if bytes[0] != PSTRLEN_VALUE_HANDSHAKE {
        return false;
    }
    let mut i: usize = 0;
    while i < 19
        invariant
            bytes@.len() == 68,
            0 <= i <= 19,
            forall|k: int| 0 <= k < i ==> bytes@[k + 1] == PSTR_BYTES_HANDSHAKE@[k],
        decreases 19 - i,
    {
        if bytes[i + 1] != PSTR_BYTES_HANDSHAKE[i] {
            assert(bytes@.subrange(1, 20)[i as int] != PSTR_BYTES_HANDSHAKE@[i as int]);
            return false;
        }
        i = i + 1;
    }
    assert(bytes@.subrange(1, 20) =~= PSTR_BYTES_HANDSHAKE@);
    true
}


/// Builds the handshake message out of 68 bytes that have the shape of a handshake.
pub fn try_decode_handshake_p2p_message(bytes: &[u8]) -> (res: Result<P2PMessage, P2PMessageDecodingError>)
    requires
        spec_is_handshake(bytes@),
    ensures
        res matches Ok(m) && m@ == spec_handshake(bytes@),
{
    let protocol_str = PSTR_STRING_HANDSHAKE.to_string();
    let info_hash = slice_to_vec(slice_subrange(bytes, 28, 48));
    let peer_id = slice_to_vec(slice_subrange(bytes, 48, 68));
    Ok(P2PMessage::Handshake { protocol_str, info_hash, peer_id })
}

/// Whether the bytes after the length prefix are as many as the prefix says.
pub fn has_the_correct_number_of_bytes(bytes: &[u8], lenght_prefix: u32) -> (res: Result<bool, P2PMessageDecodingError>)
    requires
        bytes@.len() >= NUM_OF_BYTES_LENGHT_PREFIX,
    ensures
        bytes@.len() - 4 <= u32::MAX <==> res is Ok,
        res matches Ok(b) ==> b == (bytes@.len() - 4 == lenght_prefix),
        res matches Err(e) ==> e@ == DecodingFailure::FromUsizeToU32 && e.text() == CONVERSION_TEXT@,
{
    let n = bytes.len() - NUM_OF_BYTES_LENGHT_PREFIX;
    if n > 4294967295usize {
        return Err(P2PMessageDecodingError::FromUsizeToU32(String::from_str(CONVERSION_TEXT)));
    }
    Ok(n as u32 == lenght_prefix)
}

/// Builds the bitfield message out of its payload: eight entries per byte, most significant bit first.
pub fn decode_bitfield_p2p_message(bytes: &[u8]) -> (res: P2PMessage)
    ensures
        res@ == (MessageModel::Bitfield { bitfield: spec_bitfield(bytes@) }),
{
    let mut bitfield: Vec<PieceStatus> = Vec::new();
    let mut i: usize = 0;
    while i < bytes.len()
        invariant
            0 <= i <= bytes@.len(),
            bitfield@.len() == i * 8,
            forall|k: int| 0 <= k < i * 8 ==> bitfield@[k] == spec_bitfield_entry(bytes@, k),
        decreases bytes@.len() - i,
    {
        let byte = bytes[i];
        let mut shifted: u32 = byte as u32;
        let mut j: usize = 0;
        while j < 8
            invariant
                0 <= i < bytes@.len(),
                byte == bytes@[i as int],
                0 <= j <= 8,
                shifted == spec_shl(byte, j as nat),
                bitfield@.len() == i * 8 + j,
                forall|k: int| 0 <= k < i * 8 + j ==> bitfield@[k] == spec_bitfield_entry(bytes@, k),
            decreases 8 - j,
        {
            proof {
                let k = i * 8 + j;
                assert(k / 8 == i as int && k % 8 == j as int);
            }
            if shifted >= 128 {
                bitfield.push(PieceStatus::ValidAndAvailablePiece);
            } else {
                bitfield.push(PieceStatus::MissingPiece { was_requested: false });
            }
            shifted = (shifted * 2) % 256;
            j = j + 1;
        }
        i = i + 1;
    }
    let ghost expected = spec_bitfield(bytes@);
    assert(bitfield@ =~= expected);
    P2PMessage::Bitfield { bitfield }
}

/// Builds the have message out of its payload.
pub fn try_decode_have_p2p_message(bytes: &[u8]) -> (res: Result<P2PMessage, P2PMessageDecodingError>)
    requires
        bytes@.len() >= 4,
    ensures
        res matches Ok(m) && Ok::<MessageModel, DecodingFailure>(m@) == spec_decode_by_id(ID_HAVE, bytes@),
{
    let piece_index = concatenate_bytes_into_u32(slice_subrange(bytes, 0, 4))?;
    Ok(P2PMessage::Have { piece_index })
}

/// Builds the request message out of its payload.
pub fn try_decode_request_p2p_message(bytes: &[u8]) -> (res: Result<P2PMessage, P2PMessageDecodingError>)
    requires
        bytes@.len() >= 12,
    ensures
        res matches Ok(m) && Ok::<MessageModel, DecodingFailure>(m@) == spec_decode_by_id(ID_REQUEST, bytes@),
{
    let piece_index = concatenate_bytes_into_u32(slice_subrange(bytes, 0, 4))?;
    let beginning_byte_index = concatenate_bytes_into_u32(slice_subrange(bytes, 4, 8))?;
    let amount_of_bytes = concatenate_bytes_into_u32(slice_subrange(bytes, 8, 12))?;
    Ok(P2PMessage::Request { piece_index, beginning_byte_index, amount_of_bytes })
}

/// Builds the piece message out of its payload.
pub fn try_decode_piece_p2p_message(bytes: &[u8]) -> (res: Result<P2PMessage, P2PMessageDecodingError>)
    requires
        bytes@.len() >= 8,
    ensures
        res matches Ok(m) && Ok::<MessageModel, DecodingFailure>(m@) == spec_decode_by_id(ID_PIECE, bytes@),
{
    let piece_index = concatenate_bytes_into_u32(slice_subrange(bytes, 0, 4))?;
    let beginning_byte_index = concatenate_bytes_into_u32(slice_subrange(bytes, 4, 8))?;
    let block = slice_to_vec(slice_subrange(bytes, 8, bytes.len()));
    Ok(P2PMessage::Piece { piece_index, beginning_byte_index, block })
}

/// Builds the cancel message out of its payload.
pub fn try_decode_cancel_p2p_message(bytes: &[u8]) -> (res: Result<P2PMessage, P2PMessageDecodingError>)
    requires
        bytes@.len() >= 12,
    ensures
        res matches Ok(m) && Ok::<MessageModel, DecodingFailure>(m@) == spec_decode_by_id(ID_CANCEL, bytes@),
{
    let piece_index = concatenate_bytes_into_u32(slice_subrange(bytes, 0, 4))?;
    let beginning_byte_index = concatenate_bytes_into_u32(slice_subrange(bytes, 4, 8))?;
    let amount_of_bytes = concatenate_bytes_into_u32(slice_subrange(bytes, 8, 12))?;
    Ok(P2PMessage::Cancel { piece_index, beginning_byte_index, amount_of_bytes })
}

/// Builds the port message out of its payload: a big endian 16 bit port.
pub fn try_decode_port_p2p_message(bytes: &[u8]) -> (res: Result<P2PMessage, P2PMessageDecodingError>)
    requires
        bytes@.len() >= 2,
    ensures
        res matches Ok(m) && Ok::<MessageModel, DecodingFailure>(m@) == spec_decode_by_id(ID_PORT, bytes@),
{
    let port_bytes: [u8; 4] = [0u8, 0u8, bytes[0], bytes[1]];
    let port_value = concatenate_bytes_into_u32(&port_bytes)?;
    Ok(P2PMessage::Port { listen_port: port_value })
}

/// Decodes a message whose length prefix is not zero, by its id byte.
pub fn match_p2p_msg_according_to_id(bytes: &[u8]) -> (res: Result<P2PMessage, P2PMessageDecodingError>)
    requires
        bytes@.len() >= 5,
    ensures
        match res {
            Ok(m) => spec_decode_by_id(bytes@[4], bytes@.subrange(5, bytes@.len() as int))
                == Ok::<MessageModel, DecodingFailure>(m@),
            Err(e) => spec_decode_by_id(bytes@[4], bytes@.subrange(5, bytes@.len() as int))
                == Err::<MessageModel, DecodingFailure>(e@)
                && e.text() == spec_decode_by_id_text(bytes@[4], bytes@.subrange(5, bytes@.len() as int)),
        },
{
    let id_byte = bytes[4];
    let payload = slice_subrange(bytes, 5, bytes.len());
    if !payload_fits(id_byte, payload.len()) {
        return Err(P2PMessageDecodingError::ByteAmount(String::from_str(CONCATENATE_TEXT)));
    }
    if id_byte == ID_CHOKE {
        Ok(P2PMessage::Choke)
    } else if id_byte == ID_UNCHOKE {
        Ok(P2PMessage::Unchoke)
    } else if id_byte == ID_INTERESTED {
        Ok(P2PMessage::Interested)
    } else if id_byte == ID_NOT_INTERESTED {
        Ok(P2PMessage::NotInterested)
    } else if id_byte == ID_HAVE {
        try_decode_have_p2p_message(payload)
    } else if id_byte == ID_BITFIELD {
        Ok(decode_bitfield_p2p_message(payload))
    } else if id_byte == ID_REQUEST {
        try_decode_request_p2p_message(payload)
    } else if id_byte == ID_PIECE {
        try_decode_piece_p2p_message(payload)
    } else if id_byte == ID_CANCEL {
        try_decode_cancel_p2p_message(payload)
    } else if id_byte == ID_PORT {
        try_decode_port_p2p_message(payload)
    } else {
        Err(P2PMessageDecodingError::InvalidId(String::from_str(INVALID_ID_TEXT)))
    }
}

/// Decodes a message whose length matches its prefix: a keep alive when the prefix is zero,
/// otherwise by its id byte.
pub fn determinate_p2p_msg(bytes: &[u8], lenght_prefix: u32) -> (res: Result<P2PMessage, P2PMessageDecodingError>)
    requires
        bytes@.len() - 4 == lenght_prefix,
    ensures
        lenght_prefix == 0 ==> (res matches Ok(m) && m@ == MessageModel::KeepAlive),
        lenght_prefix > 0 ==> match res {
            Ok(m) => spec_decode_by_id(bytes@[4], bytes@.subrange(5, bytes@.len() as int))
                == Ok::<MessageModel, DecodingFailure>(m@),
            Err(e) => spec_decode_by_id(bytes@[4], bytes@.subrange(5, bytes@.len() as int))
                == Err::<MessageModel, DecodingFailure>(e@)
                && e.text() == spec_decode_by_id_text(bytes@[4], bytes@.subrange(5, bytes@.len() as int)),
        },
{
    if lenght_prefix == 0 {
        Ok(P2PMessage::KeepAlive)
    } else {
        match_p2p_msg_according_to_id(bytes)
    }
}

/// Decodes a whole message, as read off a socket, into its [`P2PMessage`].
///
/// Fails with `ByteAmount` on fewer than four bytes, when the length prefix does not match
/// the bytes that follow it, or when the payload is too short for the fields of its message,
/// and with `InvalidId` on an unknown message id.
pub fn from_bytes(bytes: &[u8]) -> (res: Result<P2PMessage, P2PMessageDecodingError>)
    ensures
        match res {
            Ok(m) => spec_decode(bytes@) == Ok::<MessageModel, DecodingFailure>(m@),
            Err(e) => spec_decode(bytes@) == Err::<MessageModel, DecodingFailure>(e@)
                && e.text() == spec_decode_text(bytes@),
        },
{
    if bytes.len() < MIN_BYTES_OF_A_P2P_MSG {
        return Err(P2PMessageDecodingError::ByteAmount(String::from_str(TOO_SHORT_TEXT)));
    }
    if is_handshake(bytes) {
        return try_decode_handshake_p2p_message(bytes);
    }
    let lenght_prefix = concatenate_bytes_into_u32(slice_subrange(bytes, 0, 4))?;
    if !has_the_correct_number_of_bytes(bytes, lenght_prefix)? {
        Err(P2PMessageDecodingError::ByteAmount(String::from_str(LENGTH_MISMATCH_TEXT)))
    } else {
        determinate_p2p_msg(bytes, lenght_prefix)
    }
}

/// Whether a payload of `payload_len` bytes is long enough for the fields that the message
/// `id` reads from it.
fn payload_fits(id: u8, payload_len: usize) -> (res: bool)
    ensures
        res == spec_payload_fits(id, payload_len as int),
{
    if id == ID_HAVE {
        payload_len >= 4
    } else if id == ID_REQUEST || id == ID_CANCEL {
        payload_len >= 12
    } else if id == ID_PIECE {
        payload_len >= 8
    } else if id == ID_PORT {
        payload_len >= 2
    } else {
        true
    }
}

} // verus!
