//! What decoding does to encoded messages.

use vstd::prelude::*;
use crate::p2p::constants::{
    ID_BITFIELD, ID_CANCEL, ID_CHOKE, ID_HAVE, ID_INTERESTED, ID_NOT_INTERESTED, ID_PIECE,
    ID_PORT, ID_REQUEST, ID_UNCHOKE, PSTRLEN_VALUE_HANDSHAKE, PSTR_BYTES_HANDSHAKE,
    PSTR_STRING_HANDSHAKE,
};
use crate::p2p::decoder::{
    spec_be_u32, spec_bit_is_set, spec_bitfield, spec_bitfield_entry, spec_decode,
    spec_is_handshake, spec_shl,
};
use crate::p2p::encoder::{spec_encode, spec_frame, spec_pack_bitfield, spec_pack_byte, spec_u32_to_be};
use crate::p2p::message::{DecodingFailure, MessageModel, PieceStatus};

verus! {

/// Whether a message is one that the wire format represents exactly: a bitfield of whole
/// bytes holding only valid pieces and unrequested missing pieces, a block that fits the length
/// prefix, a 16 bit port, and a handshake with the protocol string and 20 byte hashes.
pub open spec fn spec_is_wire_message(m: MessageModel) -> bool {
    match m {
        MessageModel::Bitfield { bitfield } => {
            &&& bitfield.len() % 8 == 0
            &&& bitfield.len() / 8 + 1 <= u32::MAX
            &&& forall|i: int|
                0 <= i < bitfield.len() ==> #[trigger] bitfield[i] == PieceStatus::ValidAndAvailablePiece
                    || bitfield[i] == (PieceStatus::MissingPiece { was_requested: false })
        },
        MessageModel::Piece { block, .. } => block.len() + 9 <= u32::MAX,
        MessageModel::Port { listen_port } => listen_port < 65536,
        MessageModel::Handshake { protocol_str, info_hash, peer_id } => {
            &&& protocol_str == PSTR_STRING_HANDSHAKE@
            &&& info_hash.len() == 20
            &&& peer_id.len() == 20
        },
        _ => true,
    }
}

proof fn lemma_be_roundtrip(x: int)
    requires
        0 <= x <= u32::MAX,
    ensures
        spec_u32_to_be(x).len() == 4,
        spec_be_u32(spec_u32_to_be(x)) == x,
{
    let b = spec_u32_to_be(x);
    assert(b[0] as int == x / 16777216);
    assert(b[1] as int == (x / 65536) % 256);
    assert(b[2] as int == (x / 256) % 256);
    assert(b[3] as int == x % 256);
    assert(x / 16777216 * 16777216 + (x / 65536) % 256 * 65536 + (x / 256) % 256 * 256 + x % 256 == x)
        by (nonlinear_arith)
        requires
            0 <= x <= u32::MAX,
    ;
}

proof fn lemma_frame(id: u8, payload: Seq<u8>)
    requires
        payload.len() + 1 <= u32::MAX,
    ensures
        ({
            let b = spec_frame(id, payload);
            &&& b.len() == payload.len() + 5
            &&& spec_be_u32(b.subrange(0, 4)) == b.len() - 4
            &&& b[4] == id
            &&& b.subrange(5, b.len() as int) == payload
            &&& !spec_is_handshake(b)
        }),
{
    let b = spec_frame(id, payload);
    let n: int = payload.len() + 1int;
    lemma_be_roundtrip(n);
    assert(b.subrange(0, 4) =~= spec_u32_to_be(n));
    assert(b.subrange(5, b.len() as int) =~= payload);
    if b.len() == 68 {
        assert(b[0] as int == n / 16777216);
    }
}

proof fn lemma_shl_bits(c: Seq<int>)
    requires
        c.len() == 8,
        forall|i: int| 0 <= i < 8 ==> c[i] == 0 || c[i] == 1,
    ensures
        ({
            let v = c[0] * 128 + c[1] * 64 + c[2] * 32 + c[3] * 16 + c[4] * 8 + c[5] * 4 + c[6] * 2 + c[7];
            &&& 0 <= v < 256
            &&& forall|j: nat| j < 8 ==> (#[trigger] spec_shl(v as u8, j) >= 128 <==> c[j as int] == 1)
        }),
{
    let v = c[0] * 128 + c[1] * 64 + c[2] * 32 + c[3] * 16 + c[4] * 8 + c[5] * 4 + c[6] * 2 + c[7];
    let b = v as u8;
    assert(spec_shl(b, 0) == v);
    assert(spec_shl(b, 1) == c[1] * 128 + c[2] * 64 + c[3] * 32 + c[4] * 16 + c[5] * 8 + c[6] * 4 + c[7] * 2);
    assert(spec_shl(b, 2) == c[2] * 128 + c[3] * 64 + c[4] * 32 + c[5] * 16 + c[6] * 8 + c[7] * 4);
    assert(spec_shl(b, 3) == c[3] * 128 + c[4] * 64 + c[5] * 32 + c[6] * 16 + c[7] * 8);
    assert(spec_shl(b, 4) == c[4] * 128 + c[5] * 64 + c[6] * 32 + c[7] * 16);
    assert(spec_shl(b, 5) == c[5] * 128 + c[6] * 64 + c[7] * 32);
    assert(spec_shl(b, 6) == c[6] * 128 + c[7] * 64);
    assert(spec_shl(b, 7) == c[7] * 128);
    assert forall|j: nat| j < 8 implies (#[trigger] spec_shl(b, j) >= 128 <==> c[j as int] == 1) by {
        if j == 0 {} else if j == 1 {} else if j == 2 {} else if j == 3 {} else if j == 4 {}
        else if j == 5 {} else if j == 6 {} else {}
    }
}

/// The bit value of bitfield entry `k`.
spec fn bit_of(bits: Seq<PieceStatus>, k: int) -> int {
    if 0 <= k < bits.len() && bits[k] == PieceStatus::ValidAndAvailablePiece { 1 } else { 0 }
}

proof fn lemma_pack_byte_value(bits: Seq<PieceStatus>, start: int)
    ensures
        spec_pack_byte(bits, start, 8) == bit_of(bits, start) * 128 + bit_of(bits, start + 1) * 64
            + bit_of(bits, start + 2) * 32 + bit_of(bits, start + 3) * 16 + bit_of(bits, start + 4) * 8
            + bit_of(bits, start + 5) * 4 + bit_of(bits, start + 6) * 2 + bit_of(bits, start + 7),
{
    reveal_with_fuel(spec_pack_byte, 9);
}

proof fn lemma_bitfield_roundtrip(bits: Seq<PieceStatus>)
    requires
        bits.len() % 8 == 0,
        forall|i: int|
            0 <= i < bits.len() ==> #[trigger] bits[i] == PieceStatus::ValidAndAvailablePiece
                || bits[i] == (PieceStatus::MissingPiece { was_requested: false }),
    ensures
        spec_bitfield(spec_pack_bitfield(bits)) == bits,
{
    let p = spec_pack_bitfield(bits);
    assert(p.len() == bits.len() / 8);
    assert forall|k: int| 0 <= k < bits.len() implies #[trigger] spec_bitfield_entry(p, k) == bits[k] by {
        let i = k / 8;
        let j = k % 8;
        let start = i * 8;
        assert(start + j == k);
        let c = seq![bit_of(bits, start), bit_of(bits, start + 1), bit_of(bits, start + 2),
            bit_of(bits, start + 3), bit_of(bits, start + 4), bit_of(bits, start + 5),
            bit_of(bits, start + 6), bit_of(bits, start + 7)];
        lemma_pack_byte_value(bits, start);
        lemma_shl_bits(c);
        assert(c[j] == bit_of(bits, k));
        assert(spec_bit_is_set(p[i], j as nat) <==> c[j] == 1);
    }
    assert(spec_bitfield(p) =~= bits);
}

/// Decoding undoes encoding: every message that the wire format represents exactly is encoded
/// into bytes that decode, without failing, back into the same message.
pub proof fn lemma_decode_encode_roundtrip(m: MessageModel)
    requires
        spec_is_wire_message(m),
    ensures
        spec_encode(m) is Ok,
        spec_decode(spec_encode(m)->Ok_0) == Ok::<MessageModel, DecodingFailure>(m),
{
    match m {
        MessageModel::KeepAlive => {
            let b = seq![0u8, 0u8, 0u8, 0u8];
            assert(b.subrange(0, 4) =~= b);
        },
        MessageModel::Choke => { lemma_frame(ID_CHOKE, seq![]); },
        MessageModel::Unchoke => { lemma_frame(ID_UNCHOKE, seq![]); },
        MessageModel::Interested => { lemma_frame(ID_INTERESTED, seq![]); },
        MessageModel::NotInterested => { lemma_frame(ID_NOT_INTERESTED, seq![]); },
        MessageModel::Have { piece_index } => {
            let p = spec_u32_to_be(piece_index as int);
            lemma_be_roundtrip(piece_index as int);
            lemma_frame(ID_HAVE, p);
            assert(p.subrange(0, 4) =~= p);
        },
        MessageModel::Bitfield { bitfield } => {
            let p = spec_pack_bitfield(bitfield);
            lemma_frame(ID_BITFIELD, p);
            lemma_bitfield_roundtrip(bitfield);
        },
        MessageModel::Request { piece_index, beginning_byte_index, amount_of_bytes } => {
            let a = spec_u32_to_be(piece_index as int);
            let b = spec_u32_to_be(beginning_byte_index as int);
            let c = spec_u32_to_be(amount_of_bytes as int);
            lemma_be_roundtrip(piece_index as int);
            lemma_be_roundtrip(beginning_byte_index as int);
            lemma_be_roundtrip(amount_of_bytes as int);
            let p = a + b + c;
            lemma_frame(ID_REQUEST, p);
            assert(p.subrange(0, 4) =~= a);
            assert(p.subrange(4, 8) =~= b);
            assert(p.subrange(8, 12) =~= c);
        },
        MessageModel::Cancel { piece_index, beginning_byte_index, amount_of_bytes } => {
            let a = spec_u32_to_be(piece_index as int);
            let b = spec_u32_to_be(beginning_byte_index as int);
            let c = spec_u32_to_be(amount_of_bytes as int);
            lemma_be_roundtrip(piece_index as int);
            lemma_be_roundtrip(beginning_byte_index as int);
            lemma_be_roundtrip(amount_of_bytes as int);
            let p = a + b + c;
            lemma_frame(ID_CANCEL, p);
            assert(p.subrange(0, 4) =~= a);
            assert(p.subrange(4, 8) =~= b);
            assert(p.subrange(8, 12) =~= c);
        },
        MessageModel::Piece { piece_index, beginning_byte_index, block } => {
            let a = spec_u32_to_be(piece_index as int);
            let b = spec_u32_to_be(beginning_byte_index as int);
            lemma_be_roundtrip(piece_index as int);
            lemma_be_roundtrip(beginning_byte_index as int);
            let p = a + b + block;
            lemma_frame(ID_PIECE, p);
            assert(p.subrange(0, 4) =~= a);
            assert(p.subrange(4, 8) =~= b);
            assert(p.subrange(8, p.len() as int) =~= block);
        },
        MessageModel::Port { listen_port } => {
            let p = seq![((listen_port as int / 256) % 256) as u8, (listen_port as int % 256) as u8];
            lemma_frame(ID_PORT, p);
            assert(p[0] as int * 256 + p[1] as int == listen_port as int);
        },
        MessageModel::Handshake { protocol_str, info_hash, peer_id } => {
            let b = seq![PSTRLEN_VALUE_HANDSHAKE] + PSTR_BYTES_HANDSHAKE@ + Seq::new(8, |i: int| 0u8)
                + info_hash + peer_id;
            assert(b.len() == 68);
            assert(b.subrange(1, 20) =~= PSTR_BYTES_HANDSHAKE@);
            assert(b.subrange(28, 48) =~= info_hash);
            assert(b.subrange(48, 68) =~= peer_id);
        },
    }
}


/// The piece status that a bitfield entry is sent as: a piece the peer has, or a missing
/// piece not asked for.
pub open spec fn spec_sent_status(p: PieceStatus) -> PieceStatus {
    if p == PieceStatus::ValidAndAvailablePiece {
        PieceStatus::ValidAndAvailablePiece
    } else {
        PieceStatus::MissingPiece { was_requested: false }
    }
}

/// A bitfield of any length is packed into as few whole bytes as hold all its entries, and
/// reading those bytes back gives every entry, as a piece had or missing, followed by fewer
/// than eight missing pieces that fill the last byte.
pub proof fn lemma_bitfield_payload(bits: Seq<PieceStatus>)
    ensures
        ({
            let p = spec_pack_bitfield(bits);
            let back = spec_bitfield(p);
            &&& bits.len() <= p.len() * 8 < bits.len() + 8
            &&& back.len() == p.len() * 8
            &&& forall|k: int| 0 <= k < bits.len() ==> #[trigger] back[k] == spec_sent_status(bits[k])
            &&& forall|k: int| bits.len() <= k < back.len() ==> #[trigger] back[k] == (PieceStatus::MissingPiece {
                was_requested: false,
            })
        }),
{
    let p = spec_pack_bitfield(bits);
    let n = bits.len();
    assert(n <= p.len() * 8 < n + 8);
    assert forall|k: int| 0 <= k < p.len() * 8 implies #[trigger] spec_bitfield_entry(p, k) == (if k < n {
        spec_sent_status(bits[k])
    } else {
        PieceStatus::MissingPiece { was_requested: false }
    }) by {
        let i = k / 8;
        let j = k % 8;
        let start = i * 8;
        assert(start + j == k);
        assert(0 <= i < p.len());
        let c = seq![bit_of(bits, start), bit_of(bits, start + 1), bit_of(bits, start + 2),
            bit_of(bits, start + 3), bit_of(bits, start + 4), bit_of(bits, start + 5),
            bit_of(bits, start + 6), bit_of(bits, start + 7)];
        lemma_pack_byte_value(bits, start);
        lemma_shl_bits(c);
        assert(c[j] == bit_of(bits, k));
        assert(spec_bit_is_set(p[i], j as nat) <==> c[j] == 1);
    }
}

/// A bitfield message of any length, sent and read back, gives every entry of the bitfield,
/// as a piece had or missing, followed by fewer than eight missing pieces; no entry is lost.
pub proof fn lemma_bitfield_message_roundtrip(bits: Seq<PieceStatus>)
    requires
        bits.len() / 8 + 2 <= u32::MAX,
    ensures
        spec_encode(MessageModel::Bitfield { bitfield: bits }) is Ok,
        spec_decode(spec_encode(MessageModel::Bitfield { bitfield: bits })->Ok_0) matches Ok(
            MessageModel::Bitfield { bitfield },
        ) && bits.len() <= bitfield.len() < bits.len() + 8 && (forall|k: int|
            0 <= k < bits.len() ==> #[trigger] bitfield[k] == spec_sent_status(bits[k])) && (forall|k: int|
            bits.len() <= k < bitfield.len() ==> #[trigger] bitfield[k] == (PieceStatus::MissingPiece {
                was_requested: false,
            })),
{
    let p = spec_pack_bitfield(bits);
    lemma_bitfield_payload(bits);
    lemma_frame(ID_BITFIELD, p);
}

} // verus!
