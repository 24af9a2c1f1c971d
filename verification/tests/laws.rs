use ferris_torrent::bencoding::decoder::to_dic;
use ferris_torrent::bencoding::encoder::from_dic;
use ferris_torrent::bencoding::values::{DicValues, ValuesBencoding};
use ferris_torrent::p2p::decoder::from_bytes;
use ferris_torrent::p2p::encoder::to_bytes;
use ferris_torrent::p2p::message::{P2PMessage, PieceStatus};
use ferris_torrent::urlencoding::{from_string, from_url};

fn round_trip(msg: P2PMessage, expected: P2PMessage) {
    let bytes = to_bytes(msg).unwrap();
    assert_eq!(from_bytes(&bytes).unwrap(), expected);
}

#[test]
fn p2p_messages_decode_to_what_was_encoded() {
    round_trip(P2PMessage::KeepAlive, P2PMessage::KeepAlive);
    round_trip(P2PMessage::Choke, P2PMessage::Choke);
    round_trip(P2PMessage::Have { piece_index: 7 }, P2PMessage::Have { piece_index: 7 });
    round_trip(
        P2PMessage::Request { piece_index: 1, beginning_byte_index: 16384, amount_of_bytes: 16384 },
        P2PMessage::Request { piece_index: 1, beginning_byte_index: 16384, amount_of_bytes: 16384 },
    );
    round_trip(
        P2PMessage::Piece { piece_index: 2, beginning_byte_index: 0, block: vec![1, 2, 3] },
        P2PMessage::Piece { piece_index: 2, beginning_byte_index: 0, block: vec![1, 2, 3] },
    );
    let bitfield = vec![
        PieceStatus::ValidAndAvailablePiece,
        PieceStatus::MissingPiece { was_requested: false },
        PieceStatus::ValidAndAvailablePiece,
        PieceStatus::MissingPiece { was_requested: false },
        PieceStatus::MissingPiece { was_requested: false },
        PieceStatus::MissingPiece { was_requested: false },
        PieceStatus::MissingPiece { was_requested: false },
        PieceStatus::ValidAndAvailablePiece,
    ];
    round_trip(P2PMessage::Bitfield { bitfield: bitfield.clone() }, P2PMessage::Bitfield { bitfield });
    round_trip(
        P2PMessage::Handshake {
            protocol_str: "BitTorrent protocol".to_string(),
            info_hash: vec![7; 20],
            peer_id: b"-FA0000-abcdefghijkl".to_vec(),
        },
        P2PMessage::Handshake {
            protocol_str: "BitTorrent protocol".to_string(),
            info_hash: vec![7; 20],
            peer_id: b"-FA0000-abcdefghijkl".to_vec(),
        },
    );
}

#[test]
fn dictionaries_decode_to_what_was_encoded() {
    let mut inner = DicValues::new();
    inner.insert(b"length".to_vec(), ValuesBencoding::Integer(-12));
    let mut dic = DicValues::new();
    dic.insert(b"name".to_vec(), ValuesBencoding::String(b"file".to_vec()));
    dic.insert(b"info".to_vec(), ValuesBencoding::Dic(inner));
    dic.insert(
        b"list".to_vec(),
        ValuesBencoding::List(vec![ValuesBencoding::Integer(0), ValuesBencoding::String(vec![])]),
    );
    let bytes = from_dic(dic);
    assert_eq!(bytes, b"d4:infod6:lengthi-12ee4:listli0e0:e4:name4:filee".to_vec());
    let back = to_dic(&bytes).unwrap();
    assert_eq!(back.get(b"name"), Some(&ValuesBencoding::String(b"file".to_vec())));
    assert_eq!(from_dic(back), bytes);
}

#[test]
fn url_decoding_undoes_url_encoding() {
    let raw: Vec<u8> = vec![0x00, 0x12, b'a', b'Z', b'9', b'-', b'.', b'_', b'~', b' ', b'&', 0xff];
    let encoded = from_string(raw.clone());
    assert_eq!(encoded, b"%00%12aZ9-._~%20%26%FF".to_vec());
    assert_eq!(from_url(encoded), raw);
}
