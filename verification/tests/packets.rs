use segmented_file_client::packets::{Data, Header, Packet, PacketParseError};

#[test]
fn is_header_with_0() {
    let bytes: Vec<u8> = vec![0, 5, 8, 9, 6, 3, 2, 0];
    let result = Packet::is_header(&bytes);
    assert_eq!(result, Ok(true));
}

#[test]
fn is_header_with_12() {
    let bytes: Vec<u8> = vec![12, 5, 8, 9, 6, 3, 2, 0];
    let result = Packet::is_header(&bytes);
    assert_eq!(result, Ok(true));
}

#[test]
fn is_not_header_with_1() {
    let bytes: Vec<u8> = vec![1, 5, 8, 9, 6, 3, 2, 0];
    let result = Packet::is_header(&bytes);
    assert_eq!(result, Ok(false));
}

#[test]
fn is_not_header_with_3() {
    let bytes: Vec<u8> = vec![3, 5, 8, 9, 6, 3, 2, 0];
    let result = Packet::is_header(&bytes);
    assert_eq!(result, Ok(false));
}

#[test]
fn is_header_error_on_empty_array() {
    let bytes: Vec<u8> = vec![];
    let result = Packet::is_header(&bytes);
    assert_eq!(result, Err(PacketParseError::IncompletePacket));
}

#[test]
fn header_error_on_empty_array() {
    let bytes: Vec<u8> = vec![];
    let result = Header::try_from(bytes.as_slice());
    assert_eq!(result, Err(PacketParseError::IncompletePacket));
}

#[test]
fn header_error_on_short_array() {
    let bytes: Vec<u8> = vec![0, 1];
    let result = Header::try_from(bytes.as_slice());
    assert_eq!(result, Err(PacketParseError::IncompletePacket));
}

#[test]
fn emoji_in_file_name() {
    // Byte 0 is the status byte (0: a header packet), byte 1 is the file id
    // (12), and the remaining bytes are the UTF-8 name, in which the emoji
    // takes the four bytes [240, 159, 146, 150].
    let sparkle_heart = "\x00\x0CThis file is lovely 💖".as_bytes();
    let result = Header::try_from(sparkle_heart);
    assert_eq!(
        result,
        Ok(Header {
            file_id: 12,
            file_name: "This file is lovely 💖".to_string()
        })
    );
}

#[test]
fn illegal_file_name() {
    // A sparkle heart emoji would be the bytes [240, 159, 146, 150]; with the
    // leading 240 replaced by 0 the name bytes are not legal UTF-8.
    let sparkle_heart: Vec<u8> = vec![0, 0, 0, 159, 146, 150];
    let result = Header::try_from(sparkle_heart.as_slice());
    assert_eq!(result, Err(PacketParseError::FilenameParseError));
}

#[test]
fn packets_error_on_empty_array() {
    let bytes: Vec<u8> = vec![];
    let result = Data::try_from(bytes.as_slice());
    assert_eq!(result, Err(PacketParseError::IncompletePacket));
}

#[test]
fn packets_error_on_short_array() {
    let bytes: Vec<u8> = vec![0, 1, 2, 3];
    let result = Data::try_from(bytes.as_slice());
    assert_eq!(result, Err(PacketParseError::IncompletePacket));
}

#[test]
fn not_last_data_packet() {
    let bytes: Vec<u8> = vec![1, 5, 8, 9, 6, 3, 2, 0];
    let result = Data::try_from(bytes.as_slice()).unwrap();
    assert!(!result.is_last_packet);
}

#[test]
fn is_last_data_packet() {
    let bytes: Vec<u8> = vec![3, 5, 8, 9, 6, 3, 2, 0];
    let result = Data::try_from(bytes.as_slice()).unwrap();
    assert!(result.is_last_packet);
}

#[test]
fn parse_packet_number() {
    let bytes: Vec<u8> = vec![3, 5, 8, 9, 3, 2, 0];
    let result = Data::try_from(bytes.as_slice()).unwrap();
    assert_eq!(result.packet_number, 8 * 256 + 9);
}

#[test]
fn extract_data() {
    let bytes: Vec<u8> = vec![3, 5, 8, 9, 3, 2, 0];
    let result = Data::try_from(bytes.as_slice()).unwrap();
    assert_eq!(result.data, vec![3, 2, 0]);
}

#[test]
fn header_round_trip_preserves_emoji_name() {
    let header = Header {
        file_id: 12,
        file_name: "This file is lovely 💖".to_string(),
    };
    let bytes = header.encode();
    let decoded = Header::try_from(bytes.as_slice()).unwrap();
    assert_eq!(decoded.file_id, 12);
    assert_eq!(decoded.file_name, "This file is lovely 💖".to_string());
}

#[test]
fn data_round_trip() {
    let data = Data {
        file_id: 7,
        packet_number: 2057,
        is_last_packet: true,
        data: vec![3, 2, 0],
    };
    let bytes = data.encode();
    let decoded = Data::try_from(bytes.as_slice()).unwrap();
    assert_eq!(decoded, data);
}

#[test]
fn packet_round_trip_both_kinds() {
    let header = Packet::Header(Header {
        file_id: 9,
        file_name: "name".to_string(),
    });
    let decoded = Packet::try_from(header.encode().as_slice()).unwrap();
    assert_eq!(decoded, header);

    let data = Packet::Data(Data {
        file_id: 9,
        packet_number: 1,
        is_last_packet: false,
        data: vec![5],
    });
    let decoded = Packet::try_from(data.encode().as_slice()).unwrap();
    assert_eq!(decoded, data);
}

#[test]
fn header_encode_wire_bytes() {
    let header = Header {
        file_id: 12,
        file_name: "ab".to_string(),
    };
    assert_eq!(header.encode(), vec![0, 12, 97, 98]);
}

#[test]
fn data_encode_wire_bytes() {
    let not_last = Data {
        file_id: 5,
        packet_number: 8 * 256 + 9,
        is_last_packet: false,
        data: vec![9],
    };
    assert_eq!(not_last.encode(), vec![1, 5, 8, 9, 9]);

    let last = Data {
        file_id: 5,
        packet_number: 3,
        is_last_packet: true,
        data: vec![7, 7],
    };
    assert_eq!(last.encode(), vec![3, 5, 0, 3, 7, 7]);
}

#[test]
fn header_with_empty_name_encodes_too_short() {
    // An empty name gives a two-byte encoding, under the three-byte minimum
    // for a header packet, so the round trip fails on this one input.
    let header = Header {
        file_id: 1,
        file_name: String::new(),
    };
    let bytes = header.encode();
    assert_eq!(bytes, vec![0, 1]);
    let result = Header::try_from(bytes.as_slice());
    assert_eq!(result, Err(PacketParseError::IncompletePacket));
}

#[test]
fn packet_try_from_classifies_by_parity() {
    // Status byte 12 is even: a header packet.
    let header_bytes: Vec<u8> = vec![12, 7, 104, 105];
    match Packet::try_from(header_bytes.as_slice()).unwrap() {
        Packet::Header(h) => {
            assert_eq!(h.file_id, 7);
            assert_eq!(h.file_name, "hi".to_string());
        }
        Packet::Data(_) => panic!("status byte 12 should classify as a header packet"),
    }

    // Status byte 1 is odd: a data packet, and 1 mod 4 != 3 so not the last.
    let data_bytes: Vec<u8> = vec![1, 5, 0, 1, 9];
    match Packet::try_from(data_bytes.as_slice()).unwrap() {
        Packet::Data(d) => {
            assert_eq!(d.file_id, 5);
            assert_eq!(d.packet_number, 1);
            assert!(!d.is_last_packet);
            assert_eq!(d.data, vec![9]);
        }
        Packet::Header(_) => panic!("status byte 1 should classify as a data packet"),
    }
}

#[test]
fn boundary_lengths_decode_successfully() {
    // Exactly the minimum length for each kind is enough: three bytes for a
    // header packet, five for a data packet.
    let header_bytes: Vec<u8> = vec![0, 1, 97];
    let header = Header::try_from(header_bytes.as_slice()).unwrap();
    assert_eq!(header.file_id, 1);
    assert_eq!(header.file_name, "a".to_string());

    let data_bytes: Vec<u8> = vec![1, 5, 0, 0, 9];
    let data = Data::try_from(data_bytes.as_slice()).unwrap();
    assert_eq!(data.packet_number, 0);
    assert_eq!(data.data, vec![9]);
}

#[test]
fn packet_file_id_of_both_kinds() {
    let header = Packet::Header(Header {
        file_id: 37,
        file_name: "n".to_string(),
    });
    assert_eq!(header.file_id(), 37);
    let data = Packet::Data(Data {
        file_id: 82,
        packet_number: 0,
        is_last_packet: false,
        data: vec![],
    });
    assert_eq!(data.file_id(), 82);
}
