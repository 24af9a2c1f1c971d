use ferris_torrent::p2p::constants::{
    ID_BITFIELD, ID_CANCEL, ID_CHOKE, ID_HAVE, ID_INTERESTED, ID_NOT_INTERESTED, ID_PIECE,
    ID_PORT, ID_REQUEST, ID_UNCHOKE, PSTRLEN_VALUE_HANDSHAKE, PSTR_STRING_HANDSHAKE,
    TOTAL_NUM_OF_BYTES_HANDSHAKE,
};
use ferris_torrent::p2p::decoder::{
    concatenate_bytes_into_u32, decode_bitfield_p2p_message, from_bytes, is_handshake,
};
use ferris_torrent::p2p::message::{P2PMessage, P2PMessageDecodingError, PieceStatus};

#[test]
fn concatenate_bytes_into_u32_from_less_than_four_bytes_error() {
    let bytes = [0];
    assert_eq!(
        Err(P2PMessageDecodingError::ByteAmount(format!(
            "[P2PMessageDecodingError] Invalid amount of bytes to concatenate into an u32 (4 are required)"
        ))),
        concatenate_bytes_into_u32(&bytes)
    );
}

#[test]
fn concatenate_bytes_into_u32_from_more_than_four_bytes_error() {
    let bytes = [0, 0, 0, 1, 2];
    assert_eq!(
        Err(P2PMessageDecodingError::ByteAmount(format!(
            "[P2PMessageDecodingError] Invalid amount of bytes to concatenate into an u32 (4 are required)"
        ))),
        concatenate_bytes_into_u32(&bytes)
    );
}

#[test]
fn concatenate_bytes_into_u32_from_four_zeroed_bytes_ok() {
    let bytes = [0; 4];
    let expected_value = 0;
    assert_eq!(Ok(expected_value), concatenate_bytes_into_u32(&bytes));
}

#[test]
fn concatenate_bytes_into_u32_from_four_bytes_ok() {
    let bytes = [1, 1, 1, 1];
    let expected_value = 16843009;
    assert_eq!(Ok(expected_value), concatenate_bytes_into_u32(&bytes));
}

#[test]
fn is_handshake_with_less_than_sixty_eight_bytes_error() {
    let p2p_msg_bytes = [0];
    assert!(!is_handshake(&p2p_msg_bytes));
}

#[test]
fn is_handshake_with_more_than_sixty_eight_bytes_error() {
    let p2p_msg_bytes = [0; 70];
    assert!(!is_handshake(&p2p_msg_bytes));
}

#[test]
fn is_handshake_with_an_invalid_pstrlen_error() {
    let mut p2p_msg_bytes = [0; TOTAL_NUM_OF_BYTES_HANDSHAKE];
    p2p_msg_bytes[0] = 20;
    assert!(!is_handshake(&p2p_msg_bytes));
}

#[test]
fn is_handshake_with_an_invalid_pstr_error() {
    let pstr_bytes = String::from("VitTorrent protocol").as_bytes().to_vec();
    let mut p2p_msg_bytes = [0; TOTAL_NUM_OF_BYTES_HANDSHAKE];
    p2p_msg_bytes[0] = PSTRLEN_VALUE_HANDSHAKE;
    for i in 0..19 {
        p2p_msg_bytes[i + 1] = pstr_bytes[i];
    }
    assert!(!is_handshake(&p2p_msg_bytes));
}

#[test]
fn is_handshake_with_the_correct_fields_ok() {
    let pstr_bytes = String::from(PSTR_STRING_HANDSHAKE).as_bytes().to_vec();
    let mut p2p_msg_bytes = [0; TOTAL_NUM_OF_BYTES_HANDSHAKE];
    p2p_msg_bytes[0] = PSTRLEN_VALUE_HANDSHAKE;
    for i in 0..19 {
        p2p_msg_bytes[i + 1] = pstr_bytes[i];
    }
    assert!(is_handshake(&p2p_msg_bytes));
}

#[test]
fn decode_bitfield_from_one_byte() {
    let bifield_bytes = [1];
    assert_eq!(
        P2PMessage::Bitfield {
            bitfield: vec![
                PieceStatus::MissingPiece {
                    was_requested: false
                },
                PieceStatus::MissingPiece {
                    was_requested: false
                },
                PieceStatus::MissingPiece {
                    was_requested: false
                },
                PieceStatus::MissingPiece {
                    was_requested: false
                },
                PieceStatus::MissingPiece {
                    was_requested: false
                },
                PieceStatus::MissingPiece {
                    was_requested: false
                },
                PieceStatus::MissingPiece {
                    was_requested: false
                },
                PieceStatus::ValidAndAvailablePiece
            ]
        },
        decode_bitfield_p2p_message(&bifield_bytes)
    );
}

#[test]
fn decode_bitfield_from_some_bytes() {
    let bifield_bytes = [1, 2, 3];
    assert_eq!(
        P2PMessage::Bitfield {
            bitfield: vec![
                PieceStatus::MissingPiece {
                    was_requested: false
                },
                PieceStatus::MissingPiece {
                    was_requested: false
                },
                PieceStatus::MissingPiece {
                    was_requested: false
                },
                PieceStatus::MissingPiece {
                    was_requested: false
                },
                PieceStatus::MissingPiece {
                    was_requested: false
                },
                PieceStatus::MissingPiece {
                    was_requested: false
                },
                PieceStatus::MissingPiece {
                    was_requested: false
                },
                PieceStatus::ValidAndAvailablePiece,
                PieceStatus::MissingPiece {
                    was_requested: false
                },
                PieceStatus::MissingPiece {
                    was_requested: false
                },
                PieceStatus::MissingPiece {
                    was_requested: false
                },
                PieceStatus::MissingPiece {
                    was_requested: false
                },
                PieceStatus::MissingPiece {
                    was_requested: false
                },
                PieceStatus::MissingPiece {
                    was_requested: false
                },
                PieceStatus::ValidAndAvailablePiece,
                PieceStatus::MissingPiece {
                    was_requested: false
                },
                PieceStatus::MissingPiece {
                    was_requested: false
                },
                PieceStatus::MissingPiece {
                    was_requested: false
                },
                PieceStatus::MissingPiece {
                    was_requested: false
                },
                PieceStatus::MissingPiece {
                    was_requested: false
                },
                PieceStatus::MissingPiece {
                    was_requested: false
                },
                PieceStatus::MissingPiece {
                    was_requested: false
                },
                PieceStatus::ValidAndAvailablePiece,
                PieceStatus::ValidAndAvailablePiece
            ]
        },
        decode_bitfield_p2p_message(&bifield_bytes)
    );
}

#[test]
fn decode_less_than_four_bytes_error() {
    let p2p_msg_bytes = [0];
    assert_eq!(
        Err(P2PMessageDecodingError::ByteAmount(format!(
            "[P2PMessageDecodingError] The P2P msg to decode does not have enough bytes (min. 4 required)"
        ))),
        from_bytes(&p2p_msg_bytes)
    );
}

#[test]
fn decode_handshake() {
    let mut p2p_msg_bytes = [0; TOTAL_NUM_OF_BYTES_HANDSHAKE];
    let pstr_bytes = String::from(PSTR_STRING_HANDSHAKE).as_bytes().to_vec();
    let info_hash_bytes = [1; 20];
    let peer_id_bytes = "-FA0001-012345678901".to_string().as_bytes().to_vec();

    p2p_msg_bytes[0] = PSTRLEN_VALUE_HANDSHAKE;
    for i in 1..20 {
        p2p_msg_bytes[i] = pstr_bytes[i - 1];
    }
    for i in 28..48 {
        p2p_msg_bytes[i] = info_hash_bytes[i - 28];
    }
    for i in 48..68 {
        p2p_msg_bytes[i] = peer_id_bytes[i - 48];
    }

    assert_eq!(
        Ok(P2PMessage::Handshake {
            protocol_str: PSTR_STRING_HANDSHAKE.to_string(),
            info_hash: [1; 20].to_vec(),
            peer_id: "-FA0001-012345678901".bytes().collect(),
        }),
        from_bytes(&p2p_msg_bytes)
    );
}

#[test]
fn decode_keep_alive_ok() {
    let p2p_msg_bytes = [0; 4];
    assert_eq!(Ok(P2PMessage::KeepAlive), from_bytes(&p2p_msg_bytes));
}

#[test]
fn decode_choke_ok() {
    let p2p_msg_bytes = [0, 0, 0, 1, ID_CHOKE];
    assert_eq!(Ok(P2PMessage::Choke), from_bytes(&p2p_msg_bytes));
}

#[test]
fn decode_unchoke_ok() {
    let p2p_msg_bytes = [0, 0, 0, 1, ID_UNCHOKE];
    assert_eq!(Ok(P2PMessage::Unchoke), from_bytes(&p2p_msg_bytes));
}

#[test]
fn decode_interested_ok() {
    let p2p_msg_bytes = [0, 0, 0, 1, ID_INTERESTED];
    assert_eq!(Ok(P2PMessage::Interested), from_bytes(&p2p_msg_bytes));
}

#[test]
fn decode_not_interested_ok() {
    let p2p_msg_bytes = [0, 0, 0, 1, ID_NOT_INTERESTED];
    assert_eq!(Ok(P2PMessage::NotInterested), from_bytes(&p2p_msg_bytes));
}

#[test]
fn decode_have_with_a_piece_index_ok() {
    let p2p_msg_bytes = [0, 0, 0, 5, ID_HAVE, 0, 0, 0, 1];
    assert_eq!(
        Ok(P2PMessage::Have { piece_index: 1 }),
        from_bytes(&p2p_msg_bytes)
    );
}

#[test]
fn decode_bitfield_ok() {
    let bytes = [0, 0, 0, 2, ID_BITFIELD, 3];
    assert_eq!(
        Ok(P2PMessage::Bitfield {
            bitfield: vec![
                PieceStatus::MissingPiece {
                    was_requested: false
                },
                PieceStatus::MissingPiece {
                    was_requested: false
                },
                PieceStatus::MissingPiece {
                    was_requested: false
                },
                PieceStatus::MissingPiece {
                    was_requested: false
                },
                PieceStatus::MissingPiece {
                    was_requested: false
                },
                PieceStatus::MissingPiece {
                    was_requested: false
                },
                PieceStatus::ValidAndAvailablePiece,
                PieceStatus::ValidAndAvailablePiece,
            ]
        },),
        from_bytes(&bytes)
    );
}

#[test]
fn decode_request_ok() {
    let p2p_msg_bytes = [0, 0, 0, 13, ID_REQUEST, 0, 0, 0, 1, 0, 0, 0, 2, 0, 0, 0, 3];
    assert_eq!(
        Ok(P2PMessage::Request {
            piece_index: 1,
            beginning_byte_index: 2,
            amount_of_bytes: 3
        }),
        from_bytes(&p2p_msg_bytes)
    );
}

#[test]
fn decode_piece_ok() {
    let p2p_msg_bytes = [0, 0, 0, 13, ID_PIECE, 0, 0, 0, 1, 0, 0, 0, 2, 0, 1, 2, 3];
    assert_eq!(
        Ok(P2PMessage::Piece {
            piece_index: 1,
            beginning_byte_index: 2,
            block: vec![0, 1, 2, 3]
        }),
        from_bytes(&p2p_msg_bytes)
    );
}

#[test]
fn decode_cancel_ok() {
    let p2p_msg_bytes = [0, 0, 0, 13, ID_CANCEL, 0, 0, 0, 1, 0, 0, 0, 2, 0, 0, 0, 3];
    assert_eq!(
        Ok(P2PMessage::Cancel {
            piece_index: 1,
            beginning_byte_index: 2,
            amount_of_bytes: 3
        }),
        from_bytes(&p2p_msg_bytes)
    );
}

#[test]
fn decode_port_ok() {
    let p2p_msg_bytes = [0, 0, 0, 3, ID_PORT, 0, 10];
    assert_eq!(
        Ok(P2PMessage::Port { listen_port: 10 }),
        from_bytes(&p2p_msg_bytes)
    );
}

#[test]
fn messages_too_short_for_their_fields_are_errors() {
    let concatenate = Err(P2PMessageDecodingError::ByteAmount(
        "[P2PMessageDecodingError] Invalid amount of bytes to concatenate into an u32 (4 are required)".to_string(),
    ));
    assert_eq!(from_bytes(&[0, 0, 0, 1, ID_HAVE]), concatenate);
    assert_eq!(from_bytes(&[0, 0, 0, 3, ID_PORT, 1, 2]), Ok(P2PMessage::Port { listen_port: 258 }));
    assert_eq!(from_bytes(&[0, 0, 0, 2, ID_PORT, 1]), concatenate);
    assert_eq!(from_bytes(&[0, 0, 0, 9, ID_REQUEST, 0, 0, 0, 1, 0, 0, 0, 2]), concatenate);
    assert_eq!(
        from_bytes(&[0, 0]),
        Err(P2PMessageDecodingError::ByteAmount(
            "[P2PMessageDecodingError] The P2P msg to decode does not have enough bytes (min. 4 required)".to_string()
        ))
    );
    assert_eq!(
        from_bytes(&[0, 0, 0, 1, 10]),
        Err(P2PMessageDecodingError::InvalidId("[P2PMessageDecodingError] Tried to decode a message with invalid ID".to_string()))
    );
}
