use vstd::prelude::*;

verus! {

/// Number of bytes that form a big endian `u32`.
pub const NEEDED_NUM_OF_BYTES_TO_CONCATENATE: usize = 4;
/// Number of bits in a byte.
pub const NUM_BITS_ON_A_BYTE: usize = 8;
/// Size in bytes of a handshake message.
pub const TOTAL_NUM_OF_BYTES_HANDSHAKE: usize = 68;
/// Value of the `pstrlen` field of a handshake.
pub const PSTRLEN_VALUE_HANDSHAKE: u8 = 19;
/// The protocol string of a handshake.
pub const PSTR_STRING_HANDSHAKE: &'static str = "BitTorrent protocol";
/// The protocol string of a handshake, as bytes.
pub const PSTR_BYTES_HANDSHAKE: [u8; 19] = [
    66, 105, 116, 84, 111, 114, 114, 101, 110, 116, 32, 112, 114, 111, 116, 111, 99, 111, 108,
];
/// Size in bytes of the length prefix of every non-handshake message.
pub const NUM_OF_BYTES_LENGHT_PREFIX: usize = 4;
/// The smallest number of bytes a message can have.
pub const MIN_BYTES_OF_A_P2P_MSG: usize = 4;

pub const ID_CHOKE: u8 = 0;
pub const ID_UNCHOKE: u8 = 1;
pub const ID_INTERESTED: u8 = 2;
pub const ID_NOT_INTERESTED: u8 = 3;
pub const ID_HAVE: u8 = 4;
pub const ID_BITFIELD: u8 = 5;
pub const ID_REQUEST: u8 = 6;
pub const ID_PIECE: u8 = 7;
pub const ID_CANCEL: u8 = 8;
pub const ID_PORT: u8 = 9;

} // verus!
