//! Encoding of peer wire protocol messages into the bytes written to a socket.

use vstd::prelude::*;
use crate::p2p::constants::{
    ID_BITFIELD, ID_CANCEL, ID_CHOKE, ID_HAVE, ID_INTERESTED, ID_NOT_INTERESTED, ID_PIECE,
    ID_PORT, ID_REQUEST, ID_UNCHOKE, PSTRLEN_VALUE_HANDSHAKE, PSTR_BYTES_HANDSHAKE,
    PSTR_STRING_HANDSHAKE,
};
use crate::p2p::message::{MessageModel, P2PMessage, P2PMessageEncodingError, PieceStatus};

verus! {

/// The kind of an encoding error, without its description.
#[derive(PartialEq, Eq, Debug, Clone, Copy, Structural)]
pub enum EncodingFailure {
    FromUsizeToU32,
    InvalidProtocolStr,
}

/// The description of the error for a message too long for its length prefix.
pub const TOO_LONG_TEXT: &'static str = "[P2PMessageEncodingError] out of range integral type conversion attempted";

/// The description of the error for a handshake with another protocol string.
pub const PROTOCOL_STR_TEXT: &'static str =
    "[P2PMessageEncodingError] The protocol string of a handshake must be BitTorrent protocol";

impl P2PMessageEncodingError {
    /// The description that the error carries.
    pub open spec fn text(&self) -> Seq<char> {
        match self {
            P2PMessageEncodingError::FromUsizeToU32Error(t) => t@,
            P2PMessageEncodingError::InvalidProtocolStrError(t) => t@,
        }
    }
}

/// The description of an encoding error of the given kind.
pub open spec fn spec_encoding_text(f: EncodingFailure) -> Seq<char> {
    match f {
        EncodingFailure::FromUsizeToU32 => TOO_LONG_TEXT@,
        EncodingFailure::InvalidProtocolStr => PROTOCOL_STR_TEXT@,
    }
}

impl View for P2PMessageEncodingError {
    type V = EncodingFailure;

    open spec fn view(&self) -> EncodingFailure {
        match self {
            P2PMessageEncodingError::FromUsizeToU32Error(_) => EncodingFailure::FromUsizeToU32,
            P2PMessageEncodingError::InvalidProtocolStrError(_) => EncodingFailure::InvalidProtocolStr,
        }
    }
}

/// The four big endian bytes of a number below 2^32.
pub open spec fn spec_u32_to_be(x: int) -> Seq<u8> {
    seq![(x / 16777216) as u8, ((x / 65536) % 256) as u8, ((x / 256) % 256) as u8, (x % 256) as u8]
}

/// The value of eight bitfield entries packed into a byte, most significant bit first:
/// a bit is set for a valid and available piece.
pub open spec fn spec_pack_byte(bits: Seq<PieceStatus>, start: int, j: nat) -> int
    decreases j,
{
    if j == 0 {
        0
    } else {
        let k = start + j - 1;
        let bit: int = if 0 <= k < bits.len() && bits[k] == PieceStatus::ValidAndAvailablePiece {
            1
        } else {
            0
        };
        spec_pack_byte(bits, start, (j - 1) as nat) * 2 + bit
    }
}

/// The number of bytes that a bitfield of `n` entries takes.
pub open spec fn spec_bitfield_bytes_len(n: nat) -> nat {
    if n % 8 == 0 {
        n / 8
    } else {
        n / 8 + 1
    }
}

/// The bytes of a bitfield payload.
pub open spec fn spec_pack_bitfield(bits: Seq<PieceStatus>) -> Seq<u8> {
    Seq::new(spec_bitfield_bytes_len(bits.len()), |i: int| spec_pack_byte(bits, i * 8, 8) as u8)
}

/// A message with a one byte id and the given payload, behind its length prefix.
pub open spec fn spec_frame(id: u8, payload: Seq<u8>) -> Seq<u8> {
    spec_u32_to_be(payload.len() + 1int) + seq![id] + payload
}

/// The bytes that a message is encoded into, or why it cannot be.
pub open spec fn spec_encode(m: MessageModel) -> Result<Seq<u8>, EncodingFailure> {
    match m {
        MessageModel::KeepAlive => Ok(seq![0u8, 0u8, 0u8, 0u8]),
        MessageModel::Choke => Ok(spec_frame(ID_CHOKE, seq![])),
        MessageModel::Unchoke => Ok(spec_frame(ID_UNCHOKE, seq![])),
        MessageModel::Interested => Ok(spec_frame(ID_INTERESTED, seq![])),
        MessageModel::NotInterested => Ok(spec_frame(ID_NOT_INTERESTED, seq![])),
        MessageModel::Have { piece_index } => Ok(spec_frame(ID_HAVE, spec_u32_to_be(piece_index as int))),
        MessageModel::Bitfield { bitfield } => {
            let payload = spec_pack_bitfield(bitfield);
            if payload.len() + 1 > u32::MAX {
                Err(EncodingFailure::FromUsizeToU32)
            } else {
                Ok(spec_frame(ID_BITFIELD, payload))
            }
        },
        MessageModel::Request { piece_index, beginning_byte_index, amount_of_bytes } => Ok(
            spec_frame(
                ID_REQUEST,
                spec_u32_to_be(piece_index as int) + spec_u32_to_be(beginning_byte_index as int)
                    + spec_u32_to_be(amount_of_bytes as int),
            ),
        ),
        MessageModel::Piece { piece_index, beginning_byte_index, block } => {
            if block.len() + 9 > u32::MAX {
                Err(EncodingFailure::FromUsizeToU32)
            } else {
                Ok(
                    spec_frame(
                        ID_PIECE,
                        spec_u32_to_be(piece_index as int) + spec_u32_to_be(
                            beginning_byte_index as int,
                        ) + block,
                    ),
                )
            }
        },
        MessageModel::Cancel { piece_index, beginning_byte_index, amount_of_bytes } => Ok(
            spec_frame(
                ID_CANCEL,
                spec_u32_to_be(piece_index as int) + spec_u32_to_be(beginning_byte_index as int)
                    + spec_u32_to_be(amount_of_bytes as int),
            ),
        ),
        MessageModel::Port { listen_port } => Ok(
            spec_frame(
                ID_PORT,
                seq![((listen_port as int / 256) % 256) as u8, (listen_port as int % 256) as u8],
            ),
        ),
        MessageModel::Handshake { protocol_str, info_hash, peer_id } => {
            if protocol_str != PSTR_STRING_HANDSHAKE@ {
                Err(EncodingFailure::InvalidProtocolStr)
            } else {
                Ok(
                    seq![PSTRLEN_VALUE_HANDSHAKE] + PSTR_BYTES_HANDSHAKE@ + Seq::new(
                        8,
                        |i: int| 0u8,
                    ) + info_hash + peer_id,
                )
            }
        },
    }
}

/// Appends the four big endian bytes of `x`.
fn push_u32_be(out: &mut Vec<u8>, x: u32)
    ensures
        final(out)@ == old(out)@ + spec_u32_to_be(x as int),
{
    out.push((x / 16777216) as u8);
    out.push(((x / 65536) % 256) as u8);
    out.push(((x / 256) % 256) as u8);
    out.push((x % 256) as u8);
    assert(final(out)@ =~= old(out)@ + spec_u32_to_be(x as int));
}

/// Appends all of `bytes`.
fn push_all(out: &mut Vec<u8>, bytes: &[u8])
    ensures
        final(out)@ == old(out)@ + bytes@,
{
    let mut i: usize = 0;
    while i < bytes.len()
        invariant
            0 <= i <= bytes@.len(),
            out@ == old(out)@ + bytes@.subrange(0, i as int),
        decreases bytes@.len() - i,
    {
        out.push(bytes[i]);
        i = i + 1;
        assert(out@ =~= old(out)@ + bytes@.subrange(0, i as int));
    }
    assert(bytes@.subrange(0, bytes@.len() as int) =~= bytes@);
}

/// Packs a bitfield into bytes, eight entries per byte, most significant bit first.
pub fn pack_bitfield(bitfield: &Vec<PieceStatus>) -> (res: Vec<u8>)
    ensures
        res@ == spec_pack_bitfield(bitfield@),
{
    let n = bitfield.len();
    let mut out: Vec<u8> = Vec::new();
    let mut start: usize = 0;
    while start < n
        invariant
            n == bitfield@.len(),
            start <= n,
            start < n ==> start == out@.len() * 8,
            start == n ==> out@.len() == spec_bitfield_bytes_len(n as nat),
            forall|i: int| 0 <= i < out@.len() ==> out@[i] == spec_pack_byte(bitfield@, i * 8, 8) as u8,
        decreases n - start,
    {
        let mut acc: u32 = 0;
        let mut j: usize = 0;
        while j < 8
            invariant
                n == bitfield@.len(),
                start < n,
                0 <= j <= 8,
                acc == spec_pack_byte(bitfield@, start as int, j as nat),
                acc < pow2_8(j as nat),
                pow2_8(j as nat) <= 256,
            decreases 8 - j,
        {
            let bit: u32 = if j < n - start && bitfield[start + j] == PieceStatus::ValidAndAvailablePiece {
                1
            } else {
                0
            };
            proof {
                lemma_pow2_8_bound((j + 1) as nat);
            }
            acc = acc * 2 + bit;
            j = j + 1;
        }
        proof {
            lemma_pow2_8_bound(8);
        }
        out.push(acc as u8);
        if n - start > 8 {
            start = start + 8;
        } else {
            proof {
                assert(out@.len() == spec_bitfield_bytes_len(n as nat));
            }
            start = n;
        }
    }
    assert(out@ =~= spec_pack_bitfield(bitfield@));
    out
}

/// Powers of two up to the eighth are at most 256.
proof fn lemma_pow2_8_bound(j: nat)
    requires
        j <= 8,
    ensures
        pow2_8(j) <= 256,
        j == 8 ==> pow2_8(j) == 256,
    decreases 8 - j,
{
    if j < 8 {
        lemma_pow2_8_bound(j + 1);
    } else {
        reveal_with_fuel(pow2_8, 9);
    }
}

/// 2 to the power `j`, for `j` up to eight.
pub open spec fn pow2_8(j: nat) -> int
    decreases j,
{
    if j == 0 {
        1
    } else {
        2 * pow2_8((j - 1) as nat)
    }
}


/// Whether a string is the handshake protocol string.
pub fn is_handshake_protocol_str(s: &str) -> (res: bool)
    ensures
        res == (s@ == PSTR_STRING_HANDSHAKE@),
{
    let pstr = PSTR_STRING_HANDSHAKE;
    proof {
        reveal_strlit("BitTorrent protocol");
    }
    let n = s.unicode_len();
    if n != 19 {
        return false;
    }
    let mut i: usize = 0;
    while i < 19
        invariant
            s@.len() == 19,
            pstr@ == PSTR_STRING_HANDSHAKE@,
            pstr@.len() == 19,
            0 <= i <= 19,
            forall|k: int| 0 <= k < i ==> s@[k] == pstr@[k],
        decreases 19 - i,
    {
        if s.get_char(i) != pstr.get_char(i) {
            return false;
        }
        i = i + 1;
    }
    assert(s@ =~= pstr@);
    true
}

/// A message with a one byte id and an empty payload.
fn frame_without_payload(id: u8) -> (res: Vec<u8>)
    ensures
        res@ == spec_frame(id, seq![]),
{
    let mut out: Vec<u8> = Vec::new();
    push_u32_be(&mut out, 1);
    out.push(id);
    assert(out@ =~= spec_frame(id, seq![]));
    out
}

/// Encodes a message into the bytes sent to a peer.
///
/// Fails with `InvalidProtocolStrError` on a handshake whose protocol string is not
/// "BitTorrent protocol", and with `FromUsizeToU32Error` when the message is too long for its
/// length prefix.
pub fn to_bytes(msg: P2PMessage) -> (res: Result<Vec<u8>, P2PMessageEncodingError>)
    ensures
        match res {
            Ok(b) => spec_encode(msg@) == Ok::<Seq<u8>, EncodingFailure>(b@),
            Err(e) => spec_encode(msg@) == Err::<Seq<u8>, EncodingFailure>(e@) && e.text() == spec_encoding_text(e@),
        },
{
    match msg {
        P2PMessage::KeepAlive => {
            let mut out: Vec<u8> = Vec::new();
            push_u32_be(&mut out, 0);
            assert(out@ =~= seq![0u8, 0u8, 0u8, 0u8]);
            Ok(out)
        },
        P2PMessage::Choke => Ok(frame_without_payload(ID_CHOKE)),
        P2PMessage::Unchoke => Ok(frame_without_payload(ID_UNCHOKE)),
        P2PMessage::Interested => Ok(frame_without_payload(ID_INTERESTED)),
        P2PMessage::NotInterested => Ok(frame_without_payload(ID_NOT_INTERESTED)),
        P2PMessage::Have { piece_index } => {
            let mut out: Vec<u8> = Vec::new();
            push_u32_be(&mut out, 5);
            out.push(ID_HAVE);
            push_u32_be(&mut out, piece_index);
            assert(out@ =~= spec_frame(ID_HAVE, spec_u32_to_be(piece_index as int)));
            Ok(out)
        },
        P2PMessage::Bitfield { bitfield } => {
            let payload = pack_bitfield(&bitfield);
            if payload.len() >= 4294967295usize {
                return Err(P2PMessageEncodingError::FromUsizeToU32Error(String::from_str(TOO_LONG_TEXT)));
            }
            let mut out: Vec<u8> = Vec::new();
            push_u32_be(&mut out, (payload.len() + 1) as u32);
            out.push(ID_BITFIELD);
            push_all(&mut out, payload.as_slice());
            assert(out@ =~= spec_frame(ID_BITFIELD, payload@));
            Ok(out)
        },
        P2PMessage::Request { piece_index, beginning_byte_index, amount_of_bytes } => {
            let mut out: Vec<u8> = Vec::new();
            push_u32_be(&mut out, 13);
            out.push(ID_REQUEST);
            push_u32_be(&mut out, piece_index);
            push_u32_be(&mut out, beginning_byte_index);
            push_u32_be(&mut out, amount_of_bytes);
            assert(out@ =~= spec_frame(
                ID_REQUEST,
                spec_u32_to_be(piece_index as int) + spec_u32_to_be(beginning_byte_index as int)
                    + spec_u32_to_be(amount_of_bytes as int),
            ));
            Ok(out)
        },
        P2PMessage::Piece { piece_index, beginning_byte_index, block } => {
            if block.len() > 4294967286usize {
                return Err(P2PMessageEncodingError::FromUsizeToU32Error(String::from_str(TOO_LONG_TEXT)));
            }
            let mut out: Vec<u8> = Vec::new();
            push_u32_be(&mut out, (block.len() + 9) as u32);
            out.push(ID_PIECE);
            push_u32_be(&mut out, piece_index);
            push_u32_be(&mut out, beginning_byte_index);
            push_all(&mut out, block.as_slice());
            assert(out@ =~= spec_frame(
                ID_PIECE,
                spec_u32_to_be(piece_index as int) + spec_u32_to_be(beginning_byte_index as int)
                    + block@,
            ));
            Ok(out)
        },
        P2PMessage::Cancel { piece_index, beginning_byte_index, amount_of_bytes } => {
            let mut out: Vec<u8> = Vec::new();
            push_u32_be(&mut out, 13);
            out.push(ID_CANCEL);
            push_u32_be(&mut out, piece_index);
            push_u32_be(&mut out, beginning_byte_index);
            push_u32_be(&mut out, amount_of_bytes);
            assert(out@ =~= spec_frame(
                ID_CANCEL,
                spec_u32_to_be(piece_index as int) + spec_u32_to_be(beginning_byte_index as int)
                    + spec_u32_to_be(amount_of_bytes as int),
            ));
            Ok(out)
        },
        P2PMessage::Port { listen_port } => {
            let mut out: Vec<u8> = Vec::new();
            push_u32_be(&mut out, 3);
            out.push(ID_PORT);
            out.push(((listen_port / 256) % 256) as u8);
            out.push((listen_port % 256) as u8);
            assert(out@ =~= spec_frame(
                ID_PORT,
                seq![((listen_port as int / 256) % 256) as u8, (listen_port as int % 256) as u8],
            ));
            Ok(out)
        },
        P2PMessage::Handshake { protocol_str, info_hash, peer_id } => {
            if !is_handshake_protocol_str(protocol_str.as_str()) {
                return Err(P2PMessageEncodingError::InvalidProtocolStrError(String::from_str(PROTOCOL_STR_TEXT)));
            }
            let mut out: Vec<u8> = Vec::new();
            out.push(PSTRLEN_VALUE_HANDSHAKE);
            push_all(&mut out, &PSTR_BYTES_HANDSHAKE);
            let mut i: usize = 0;
            while i < 8
                invariant
                    0 <= i <= 8,
                    out@ == seq![PSTRLEN_VALUE_HANDSHAKE] + PSTR_BYTES_HANDSHAKE@ + Seq::new(
                        i as nat,
                        |k: int| 0u8,
                    ),
                decreases 8 - i,
            {
                out.push(0u8);
                i = i + 1;
                assert(out@ =~= seq![PSTRLEN_VALUE_HANDSHAKE] + PSTR_BYTES_HANDSHAKE@ + Seq::new(
                    i as nat,
                    |k: int| 0u8,
                ));
            }
            push_all(&mut out, info_hash.as_slice());
            push_all(&mut out, peer_id.as_slice());
            Ok(out)
        },
    }
}

} // verus!
