use bacnet_codec::application_protocol::application_pdu::{
    ApplicationPdu, ComplexAckService, ConfirmedRequest, ConfirmedRequestSerivice,
    UnconfirmedRequest,
};
use bacnet_codec::application_protocol::services::read_property::ReadProperty;
use bacnet_codec::application_protocol::services::who_is::WhoIs;
use bacnet_codec::common::error::Error;
use bacnet_codec::common::io::{Reader, Writer};
use bacnet_codec::common::object_id::ObjectId;
use bacnet_codec::common::property_id::PropertyId;
use bacnet_codec::network_protocol::data_link::{DataLink, DataLinkFunction};
use bacnet_codec::network_protocol::network_pdu::{
    Addr, DestinationAddress, MessagePriority, NetworkAddress, NetworkMessage, NetworkPdu,
};

fn encode(frame: &DataLink) -> Result<Vec<u8>, Error> {
    let mut buf = [0u8; 256];
    let mut writer = Writer::new(&mut buf);
    frame.encode(&mut writer)?;
    Ok(writer.to_bytes().to_vec())
}

fn decode(bytes: &[u8]) -> Result<DataLink<'_>, Error> {
    let mut reader = Reader::default();
    DataLink::decode(&mut reader, bytes)
}

fn who_is() -> NetworkMessage<'static> {
    NetworkMessage::Apdu(
        ApplicationPdu::UnconfirmedRequest(UnconfirmedRequest::WhoIs(WhoIs::new())),
    )
}

fn broadcast() -> DestinationAddress {
    DestinationAddress { network_address: NetworkAddress { net: 0xFFFF, addr: None }, hop_count: 255 }
}

const WHO_IS_FRAME: [u8; 12] =
    [0x81, 0x0B, 0x00, 0x0C, 0x01, 0x20, 0xFF, 0xFF, 0x00, 0xFF, 0x10, 0x08];

const READ_PROPERTY_FRAME: [u8; 17] = [
    0x81, 0x0A, 0x00, 0x11, 0x01, 0x04, 0x02, 0x75, 0x01, 0x0C, 0x0C, 0x02, 0x00, 0x4E, 0x78, 0x19,
    0x4D,
];

#[test]
fn a_frame_round_a_ten_byte_message_declares_fourteen_bytes() {
    let npdu = NetworkPdu::new(
        Some(NetworkAddress { net: 7, addr: None }),
        Some(DestinationAddress {
            network_address: NetworkAddress { net: 9, addr: None },
            hop_count: 200,
        }),
        false,
        MessagePriority::Normal,
        NetworkMessage::MessageType(0x12),
    );
    let mut buf = [0u8; 32];
    let mut writer = Writer::new(&mut buf);
    npdu.encode(&mut writer).unwrap();
    assert_eq!(writer.to_bytes().len(), 10);
    assert_eq!(writer.to_bytes(), &[0x01, 0xA8, 0x00, 0x09, 0x00, 0x00, 0x07, 0x00, 200, 0x12]);

    let frame = DataLink::new(DataLinkFunction::OriginalUnicastNpdu, Some(npdu));
    let bytes = encode(&frame).unwrap();
    assert_eq!(bytes.len(), 14);
    assert_eq!(&bytes[..4], &[0x81, 0x0A, 0x00, 0x0E]);
    assert_eq!(&bytes[4..], &[0x01, 0xA8, 0x00, 0x09, 0x00, 0x00, 0x07, 0x00, 200, 0x12]);
}

#[test]
fn a_who_is_broadcast_has_its_bytes() {
    let npdu = NetworkPdu::new(None, Some(broadcast()), false, MessagePriority::Normal, who_is());
    let frame = DataLink::new(DataLinkFunction::OriginalBroadcastNpdu, Some(npdu));
    assert_eq!(encode(&frame), Ok(WHO_IS_FRAME.to_vec()));
}

#[test]
fn a_frame_for_a_confirmed_request_has_its_bytes() {
    let request = ConfirmedRequest::new(
        1,
        ConfirmedRequestSerivice::ReadProperty(
            ReadProperty::new(ObjectId::new(8, 20088), PropertyId(77)),
        ),
    );
    let frame = DataLink::new_confirmed_req(request);
    assert_eq!(frame.function, DataLinkFunction::OriginalUnicastNpdu);
    assert_eq!(encode(&frame), Ok(READ_PROPERTY_FRAME.to_vec()));
}

#[test]
fn frames_are_read_back() {
    let frame = decode(&WHO_IS_FRAME).unwrap();
    assert_eq!(frame.function, DataLinkFunction::OriginalBroadcastNpdu);
    let npdu = frame.npdu.unwrap();
    assert_eq!(npdu.dst, Some(broadcast()));
    assert_eq!(npdu.src, None);
    assert!(!npdu.expect_reply);
    assert_eq!(npdu.message_priority, MessagePriority::Normal);
    assert!(matches!(
        npdu.network_message,
        NetworkMessage::Apdu(ApplicationPdu::UnconfirmedRequest(UnconfirmedRequest::WhoIs(_)))
    ));

    let frame = decode(&READ_PROPERTY_FRAME).unwrap();
    let npdu = frame.npdu.unwrap();
    assert!(npdu.expect_reply);
    match npdu.network_message {
        NetworkMessage::Apdu(ApplicationPdu::ConfirmedRequest(request)) => {
            assert_eq!(request.invoke_id, 1);
        },
        _ => panic!("a confirmed request was expected"),
    }
}

#[test]
fn the_cursor_ends_where_the_frame_says() {
    let mut bytes = WHO_IS_FRAME.to_vec();
    bytes.extend_from_slice(&[0xAA, 0xBB, 0xCC]);
    let mut reader = Reader::default();
    let frame = DataLink::decode(&mut reader, &bytes).unwrap();
    assert!(frame.npdu.is_some());
    assert_eq!(reader.end, 12);
    assert_eq!(reader.index, 12);
    assert!(reader.eof());
}

#[test]
fn a_declared_length_beyond_the_buffer_is_refused() {
    let mut bytes = WHO_IS_FRAME;
    bytes[3] = 0x0D;
    assert_eq!(decode(&bytes).err(), Some(Error::Length));
    bytes[2] = 0xFF;
    bytes[3] = 0xFF;
    assert_eq!(decode(&bytes).err(), Some(Error::Length));
    // also where what the frame carries is not even a message
    assert_eq!(decode(&[0x81, 0x0A, 0x00, 0x05]).err(), Some(Error::Length));
    assert_eq!(decode(&[0x81, 0x00, 0x01, 0x00, 0xFF, 0xFF]).err(), Some(Error::Length));
}

#[test]
fn a_frame_that_is_cut_short_is_refused() {
    for cut in 0..4 {
        assert_eq!(decode(&WHO_IS_FRAME[..cut]).err(), Some(Error::BufferBounds));
    }
    for cut in 4..WHO_IS_FRAME.len() {
        assert_eq!(decode(&WHO_IS_FRAME[..cut]).err(), Some(Error::Length));
    }
}

#[test]
fn a_declared_length_short_of_the_message_ends_the_reading() {
    let mut bytes = WHO_IS_FRAME;
    for len in 0..12u8 {
        bytes[3] = len;
        assert_eq!(decode(&bytes).err(), Some(Error::BufferBounds));
    }
}

#[test]
fn another_link_than_that_over_ip_is_refused() {
    let mut bytes = WHO_IS_FRAME;
    bytes[0] = 0x82;
    assert_eq!(decode(&bytes).err(), Some(Error::Unimplemented));
    bytes[0] = 0x00;
    assert_eq!(decode(&bytes).err(), Some(Error::Unimplemented));
}

#[test]
fn a_function_outside_the_table_is_refused() {
    for function in [12u8, 13, 100, 255] {
        let mut bytes = WHO_IS_FRAME;
        bytes[1] = function;
        assert_eq!(decode(&bytes).err(), Some(Error::InvalidVariant));
        assert_eq!(DataLinkFunction::from_code(function), None);
    }
}

#[test]
fn the_other_functions_are_known_and_carry_nothing_that_is_read() {
    for function in 0u8..10 {
        let bytes = [0x81, function, 0x00, 0x06, 0xDE, 0xAD];
        let mut reader = Reader::default();
        let frame = DataLink::decode(&mut reader, &bytes).unwrap();
        assert_eq!(frame.function.code(), function);
        assert_eq!(DataLinkFunction::from_code(function), Some(frame.function));
        assert!(!frame.function.carries_npdu());
        assert!(frame.npdu.is_none());
        assert_eq!(reader.index, 4);
        assert_eq!(reader.end, 6);
        assert_eq!(encode(&frame), Err(Error::Unimplemented));
    }
    assert!(DataLinkFunction::OriginalUnicastNpdu.carries_npdu());
    assert!(DataLinkFunction::OriginalBroadcastNpdu.carries_npdu());
}

#[test]
fn a_frame_without_its_message_is_not_written() {
    let frame = DataLink::new(DataLinkFunction::OriginalUnicastNpdu, None);
    assert!(!frame.encodable());
    assert_eq!(encode(&frame), Err(Error::Unimplemented));
    let npdu = NetworkPdu::new(None, None, false, MessagePriority::Normal, who_is());
    let frame = DataLink::new(DataLinkFunction::ForwardedNpdu, Some(npdu));
    assert_eq!(encode(&frame), Err(Error::Unimplemented));
}

#[test]
fn a_frame_that_does_not_fit_is_refused() {
    let npdu = NetworkPdu::new(None, Some(broadcast()), false, MessagePriority::Normal, who_is());
    let frame = DataLink::new(DataLinkFunction::OriginalBroadcastNpdu, Some(npdu));
    for capacity in 0..12 {
        let mut buf = [0u8; 12];
        let mut writer = Writer::new(&mut buf[..capacity]);
        assert_eq!(frame.encode(&mut writer), Err(Error::BufferBounds));
    }
}

#[test]
fn a_frame_behind_other_bytes_counts_its_own_length() {
    let npdu = NetworkPdu::new(None, Some(broadcast()), false, MessagePriority::Normal, who_is());
    let frame = DataLink::new(DataLinkFunction::OriginalBroadcastNpdu, Some(npdu));
    let mut buf = [0u8; 32];
    let mut writer = Writer::new(&mut buf);
    writer.extend_from_slice(&[1, 2, 3]).unwrap();
    frame.encode(&mut writer).unwrap();
    assert_eq!(&writer.to_bytes()[..3], &[1, 2, 3]);
    assert_eq!(&writer.to_bytes()[3..], &WHO_IS_FRAME);
}

#[test]
fn the_envelope_carries_addresses_priority_and_the_reply_flag() {
    let station = Addr { ipv4: 0xC0A8_0102, port: 47808 };
    let priorities = [
        (MessagePriority::Normal, 0u8),
        (MessagePriority::Urgent, 1),
        (MessagePriority::CriticalEquipment, 2),
        (MessagePriority::LifeSafety, 3),
    ];
    for (priority, code) in priorities {
        assert_eq!(priority.code(), code);
        assert_eq!(MessagePriority::from_code(code), priority);
        assert_eq!(MessagePriority::from_code(0xFC | code), priority);
        let npdu = NetworkPdu::new(
            Some(NetworkAddress { net: 0x0102, addr: Some(station) }),
            Some(DestinationAddress {
                network_address: NetworkAddress { net: 0x0304, addr: Some(station) },
                hop_count: 9,
            }),
            true,
            priority,
            who_is(),
        );
        let mut buf = [0u8; 64];
        let mut writer = Writer::new(&mut buf);
        npdu.encode(&mut writer).unwrap();
        let bytes = writer.to_bytes().to_vec();
        let mut expected = vec![0x01, 0x2C | code];
        expected.extend_from_slice(&[0x03, 0x04, 0x06, 0xC0, 0xA8, 0x01, 0x02, 0xBA, 0xC0]);
        expected.extend_from_slice(&[0x01, 0x02, 0x06, 0xC0, 0xA8, 0x01, 0x02, 0xBA, 0xC0]);
        expected.extend_from_slice(&[0x09, 0x10, 0x08]);
        assert_eq!(bytes, expected);

        let mut reader = Reader::new_with_len(bytes.len());
        let read = NetworkPdu::decode(&mut reader, &bytes).unwrap();
        assert!(reader.eof());
        assert_eq!(read.src, npdu.src);
        assert_eq!(read.dst, npdu.dst);
        assert!(read.expect_reply);
        assert_eq!(read.message_priority, priority);
    }
}

#[test]
fn a_message_of_the_network_layer_keeps_its_type() {
    let bytes = [0x01, 0x80, 0x05, 0xAA];
    let mut reader = Reader::new_with_len(bytes.len());
    let npdu = NetworkPdu::decode(&mut reader, &bytes).unwrap();
    assert!(matches!(npdu.network_message, NetworkMessage::MessageType(5)));
    assert_eq!(reader.index, 3);
    let mut buf = [0u8; 8];
    let mut writer = Writer::new(&mut buf);
    npdu.encode(&mut writer).unwrap();
    assert_eq!(writer.to_bytes(), &[0x01, 0x80, 0x05]);
}

#[test]
fn an_address_of_another_length_is_refused() {
    let bytes = [0x01, 0x20, 0x00, 0x01, 0x01, 0x07, 0xFF, 0x10, 0x08];
    let mut reader = Reader::new_with_len(bytes.len());
    assert_eq!(NetworkPdu::decode(&mut reader, &bytes).err(), Some(Error::Unimplemented));
    let bytes = [0x01, 0x08, 0x00, 0x01, 0x06, 0xC0, 0xA8];
    let mut reader = Reader::new_with_len(bytes.len());
    assert_eq!(NetworkPdu::decode(&mut reader, &bytes).err(), Some(Error::BufferBounds));
}

#[test]
fn the_acknowledgement_is_taken_out_of_a_frame() {
    let bytes = [
        0x81, 0x0A, 0x00, 0x19, 0x01, 0x00, 0x30, 0x07, 0x0C, 0x0C, 0x02, 0x00, 0x4E, 0x78, 0x19,
        0x4D, 0x3E, 0x75, 0x05, 0x00, 0x41, 0x42, 0x43, 0x44, 0x3F,
    ];
    let ack = decode(&bytes).unwrap().get_ack_into().unwrap();
    assert_eq!(ack.invoke_id, 7);
    assert!(matches!(ack.service, ComplexAckService::ReadProperty(_)));
    let ack = decode(&bytes).unwrap().get_read_property_ack_into().unwrap();
    assert_eq!(ack.property_id, PropertyId(77));
    assert!(decode(&bytes).unwrap().get_read_property_multiple_ack_into().is_none());

    let bytes = [
        0x81, 0x0A, 0x00, 0x10, 0x01, 0x00, 0x30, 0x07, 0x0E, 0x0C, 0x02, 0x00, 0x4E, 0x78, 0x1E,
        0x1F,
    ];
    let ack = decode(&bytes).unwrap().get_read_property_multiple_ack_into().unwrap();
    assert_eq!(ack.objects.len(), 1);
    assert!(decode(&bytes).unwrap().get_read_property_ack_into().is_none());

    assert!(decode(&WHO_IS_FRAME).unwrap().get_ack_into().is_none());
    assert!(decode(&[0x81, 0x00, 0x00, 0x04]).unwrap().get_ack_into().is_none());
    assert!(decode(&[0x81, 0x0A, 0x00, 0x07, 0x01, 0x80, 0x05]).unwrap().get_ack_into().is_none());
}
