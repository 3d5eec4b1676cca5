use udp_connector::codec::decode_packet;
use udp_connector::codec::encode_packet;
use udp_connector::packet::Packet;

fn round_trips(packet: Packet) {
    let bytes = encode_packet(&packet);
    assert_eq!(Ok(packet), decode_packet(&bytes));
}

#[test]
fn ping_encoding_is_tag_and_little_endian_id() {
    let bytes = encode_packet(&Packet::Ping {
        last_send_message_id: Some(0x0102030405060708),
    });
    assert_eq!(
        vec![0u8, 0x08, 0x07, 0x06, 0x05, 0x04, 0x03, 0x02, 0x01],
        bytes
    );
}

#[test]
fn absent_id_is_encoded_as_zero() {
    let bytes = encode_packet(&Packet::Ping {
        last_send_message_id: None,
    });
    assert_eq!(vec![0u8, 0, 0, 0, 0, 0, 0, 0, 0], bytes);
    assert_eq!(
        Ok(Packet::Ping {
            last_send_message_id: None
        }),
        decode_packet(&bytes)
    );
}

#[test]
fn every_variant_round_trips() {
    round_trips(Packet::Ping {
        last_send_message_id: None,
    });
    round_trips(Packet::Ping {
        last_send_message_id: Some(1),
    });
    round_trips(Packet::Pong {
        last_send_message_id: Some(u64::MAX),
    });
    round_trips(Packet::PacketNotFound { id: 5 });
    round_trips(Packet::RequestPacket { id: 2 });
    round_trips(Packet::ConfirmPacket { id: 1 });
    round_trips(Packet::Data {
        message_id: Some(7),
        data: b"payload".to_vec(),
    });
    round_trips(Packet::Data {
        message_id: None,
        data: Vec::new(),
    });
}

#[test]
fn confirm_packet_bytes() {
    let bytes = encode_packet(&Packet::ConfirmPacket { id: 1 });
    assert_eq!(vec![4u8, 1, 0, 0, 0, 0, 0, 0, 0], bytes);
}

#[test]
fn data_packet_carries_payload_after_header() {
    let bytes = encode_packet(&Packet::Data {
        message_id: Some(3),
        data: vec![0xAA, 0xBB],
    });
    assert_eq!(vec![5u8, 3, 0, 0, 0, 0, 0, 0, 0, 0xAA, 0xBB], bytes);
}

#[test]
fn short_datagrams_do_not_decode() {
    assert_eq!(Err(()), decode_packet(&[]));
    assert_eq!(Err(()), decode_packet(&[0u8]));
    assert_eq!(Err(()), decode_packet(&[0u8, 0, 0, 0, 0, 0, 0, 0]));
}

#[test]
fn unknown_tags_do_not_decode() {
    assert_eq!(Err(()), decode_packet(&[6u8, 0, 0, 0, 0, 0, 0, 0, 0]));
    assert_eq!(Err(()), decode_packet(&[0xFFu8, 0, 0, 0, 0, 0, 0, 0, 0]));
}

#[test]
fn id_zero_is_forbidden_where_an_id_is_required() {
    // PacketNotFound, RequestPacket and ConfirmPacket need a positive id.
    assert_eq!(Err(()), decode_packet(&[2u8, 0, 0, 0, 0, 0, 0, 0, 0]));
    assert_eq!(Err(()), decode_packet(&[3u8, 0, 0, 0, 0, 0, 0, 0, 0]));
    assert_eq!(Err(()), decode_packet(&[4u8, 0, 0, 0, 0, 0, 0, 0, 0]));
}

#[test]
fn trailing_bytes_do_not_decode_except_as_data_payload() {
    // A tenth byte after a Ping header is not a valid encoding.
    assert_eq!(Err(()), decode_packet(&[0u8, 1, 0, 0, 0, 0, 0, 0, 0, 9]));
    // The same byte after a Data header is the payload.
    assert_eq!(
        Ok(Packet::Data {
            message_id: Some(1),
            data: vec![9],
        }),
        decode_packet(&[5u8, 1, 0, 0, 0, 0, 0, 0, 0, 9])
    );
}
