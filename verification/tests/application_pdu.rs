use bacnet_codec::application_protocol::application_pdu::{
    ApduType, ApplicationPdu, ComplexAck, ComplexAckService, ConfirmedRequest,
    ConfirmedRequestSerivice, ConfirmedServiceChoice, MaxAdpu, MaxSegments, UnconfirmedRequest,
    UnconfirmedServiceChoice,
};
use bacnet_codec::application_protocol::primitives::data_value::{BitString, Date, Time};
use bacnet_codec::application_protocol::services::i_am::IAm;
use bacnet_codec::application_protocol::services::read_property::ReadProperty;
use bacnet_codec::application_protocol::services::read_property_multiple::ReadPropertyMultiple;
use bacnet_codec::application_protocol::services::read_range::{
    ReadRange, ReadRangeAck, ReadRangeByPosition, ReadRangeItem, ReadRangeItems,
    ReadRangeRequestType, ReadRangeValue,
};
use bacnet_codec::application_protocol::services::who_is::WhoIs;
use bacnet_codec::common::error::Error;
use bacnet_codec::common::helper::BACNET_ARRAY_ALL;
use bacnet_codec::common::io::{Reader, Writer};
use bacnet_codec::common::object_id::ObjectId;
use bacnet_codec::common::property_id::PropertyId;

fn encode(pdu: &ApplicationPdu) -> Result<Vec<u8>, Error> {
    let mut buf = [0u8; 256];
    let mut writer = Writer::new(&mut buf);
    pdu.encode(&mut writer)?;
    Ok(writer.to_bytes().to_vec())
}

fn decode(bytes: &[u8]) -> Result<ApplicationPdu<'_>, Error> {
    let mut reader = Reader::new_with_len(bytes.len());
    ApplicationPdu::decode(&mut reader, bytes)
}

fn read_property() -> ReadProperty {
    ReadProperty::new(ObjectId::new(8, 20088), PropertyId(77))
}

#[test]
fn an_unconfirmed_request_without_a_body_is_two_bytes() {
    let pdu = ApplicationPdu::UnconfirmedRequest(UnconfirmedRequest::WhoIs(WhoIs::new()));
    assert_eq!(encode(&pdu), Ok(vec![0x10, 0x08]));
    let mut buf = [0u8; 4];
    let mut writer = Writer::new(&mut buf);
    UnconfirmedRequest::WhoIs(WhoIs::new()).encode(&mut writer).unwrap();
    assert_eq!(writer.to_bytes()[0], 0x10);
    assert_eq!(writer.to_bytes()[1], UnconfirmedServiceChoice::WhoIs.code());
}

#[test]
fn a_confirmed_request_has_its_bytes() {
    let request = ConfirmedRequest::new(1, ConfirmedRequestSerivice::ReadProperty(read_property()));
    assert_eq!(
        encode(&ApplicationPdu::ConfirmedRequest(request)),
        Ok(vec![0x02, 0x75, 0x01, 0x0C, 0x0C, 0x02, 0x00, 0x4E, 0x78, 0x19, 0x4D])
    );
}

#[test]
fn the_flag_for_a_segmented_answer_is_clear_when_no_segments_are_taken() {
    let mut request =
        ConfirmedRequest::new(9, ConfirmedRequestSerivice::ReadProperty(read_property()));
    request.max_segments = MaxSegments::_0;
    request.max_adpu = MaxAdpu::_480;
    let bytes = encode(&ApplicationPdu::ConfirmedRequest(request)).unwrap();
    assert_eq!(&bytes[..4], &[0x00, 0x03, 0x09, 0x0C]);
    let segments = [
        (MaxSegments::_2, 0x10u8),
        (MaxSegments::_4, 0x20),
        (MaxSegments::_8, 0x30),
        (MaxSegments::_16, 0x40),
        (MaxSegments::_32, 0x50),
        (MaxSegments::_64, 0x60),
        (MaxSegments::_65, 0x70),
    ];
    for (max_segments, code) in segments {
        let mut request =
            ConfirmedRequest::new(9, ConfirmedRequestSerivice::ReadProperty(read_property()));
        request.max_segments = max_segments;
        request.max_adpu = MaxAdpu::_128;
        let bytes = encode(&ApplicationPdu::ConfirmedRequest(request)).unwrap();
        assert_eq!(&bytes[..2], &[0x02, code | 0x01]);
    }
}

#[test]
fn confirmed_requests_round_trip() {
    let range = ReadRange::new(
        ObjectId::new(20, 4),
        PropertyId(131),
        ReadRangeRequestType::ByPosition(ReadRangeByPosition { index: 1, count: 10 }),
    );
    for invoke_id in [0u8, 1, 255] {
        let request =
            ConfirmedRequest::new(invoke_id, ConfirmedRequestSerivice::ReadProperty(read_property()));
        let bytes = encode(&ApplicationPdu::ConfirmedRequest(request)).unwrap();
        match decode(&bytes).unwrap() {
            ApplicationPdu::ConfirmedRequest(read) => {
                assert_eq!(read.invoke_id, invoke_id);
                assert_eq!(read.max_segments, MaxSegments::_65);
                assert_eq!(read.max_adpu, MaxAdpu::_1476);
                assert_eq!(read.sequence_num, 0);
                assert_eq!(read.proposed_window_size, 0);
                match read.service {
                    ConfirmedRequestSerivice::ReadProperty(x) => assert_eq!(x, read_property()),
                    _ => panic!("another service"),
                }
            },
            _ => panic!("another kind of message"),
        }

        let request = ConfirmedRequest::new(invoke_id, ConfirmedRequestSerivice::ReadRange(range));
        let bytes = encode(&ApplicationPdu::ConfirmedRequest(request)).unwrap();
        assert_eq!(bytes[3], 26);
        match decode(&bytes).unwrap() {
            ApplicationPdu::ConfirmedRequest(read) => match read.service {
                ConfirmedRequestSerivice::ReadRange(x) => assert_eq!(x, range),
                _ => panic!("another service"),
            },
            _ => panic!("another kind of message"),
        }

        let multiple = ReadPropertyMultiple::new(
            ObjectId::new(8, 20088),
            vec![PropertyId(77), PropertyId(28)],
        );
        let request = ConfirmedRequest::new(
            invoke_id,
            ConfirmedRequestSerivice::ReadPropertyMultiple(multiple),
        );
        let bytes = encode(&ApplicationPdu::ConfirmedRequest(request)).unwrap();
        assert_eq!(bytes[3], 14);
        match decode(&bytes).unwrap() {
            ApplicationPdu::ConfirmedRequest(read) => match read.service {
                ConfirmedRequestSerivice::ReadPropertyMultiple(x) => {
                    assert_eq!(x.object_id, ObjectId::new(8, 20088));
                    assert_eq!(x.property_ids, vec![PropertyId(77), PropertyId(28)]);
                    assert_eq!(x.array_index, BACNET_ARRAY_ALL);
                },
                _ => panic!("another service"),
            },
            _ => panic!("another kind of message"),
        }
    }
}

#[test]
fn a_segmented_request_is_refused() {
    let bytes = [0x08, 0x75, 0x01, 0x00, 0x00, 0x0C, 0x0C, 0x02, 0x00, 0x4E, 0x78, 0x19, 0x4D];
    assert_eq!(decode(&bytes).err(), Some(Error::Unimplemented));
    let bytes = [0x0F, 0x75];
    assert_eq!(decode(&bytes).err(), Some(Error::Unimplemented));
}

#[test]
fn the_kinds_of_message_that_are_not_read_are_refused() {
    for kind in [2u8, 4, 5, 6, 7] {
        assert_eq!(decode(&[kind << 4, 1, 2, 3]).err(), Some(Error::Unimplemented));
        assert_eq!(ApduType::from_code(kind).map(|x| x.code()), Some(kind));
    }
    for kind in 8u8..16 {
        assert_eq!(decode(&[kind << 4, 1, 2, 3]).err(), Some(Error::InvalidVariant));
        assert_eq!(ApduType::from_code(kind), None);
    }
    assert_eq!(decode(&[]).err(), Some(Error::BufferBounds));
}

#[test]
fn limits_outside_their_tables_are_refused() {
    let good = [0x02, 0x75, 0x01, 0x0C, 0x0C, 0x02, 0x00, 0x4E, 0x78, 0x19, 0x4D];
    assert!(decode(&good).is_ok());
    for limits in [0x80u8, 0xF5, 0x06, 0x7F] {
        let mut bytes = good;
        bytes[1] = limits;
        assert_eq!(decode(&bytes).err(), Some(Error::InvalidVariant));
    }
    assert_eq!(MaxSegments::from_code(0x70), Some(MaxSegments::_65));
    assert_eq!(MaxSegments::from_code(0x07), None);
    assert_eq!(MaxAdpu::from_code(5), Some(MaxAdpu::_1476));
    assert_eq!(MaxAdpu::from_code(6), None);
}

#[test]
fn a_service_outside_the_table_is_refused_and_one_that_is_not_read_too() {
    let good = [0x02, 0x75, 0x01, 0x0C, 0x0C, 0x02, 0x00, 0x4E, 0x78, 0x19, 0x4D];
    for choice in [35u8, 100, 255] {
        let mut bytes = good;
        bytes[3] = choice;
        assert_eq!(decode(&bytes).err(), Some(Error::InvalidVariant));
        assert_eq!(ConfirmedServiceChoice::from_code(choice), None);
    }
    for choice in 0u8..35 {
        assert_eq!(ConfirmedServiceChoice::from_code(choice).map(|x| x.code()), Some(choice));
        if choice == 12 || choice == 14 || choice == 26 {
            continue;
        }
        let mut bytes = good;
        bytes[3] = choice;
        assert_eq!(decode(&bytes).err(), Some(Error::Unimplemented));
        assert_eq!(decode(&[0x30, 0x01, choice, 0x0C]).err(), Some(Error::Unimplemented));
    }
    assert_eq!(decode(&[0x30, 0x01, 35]).err(), Some(Error::InvalidVariant));
    for choice in 0u8..16 {
        assert_eq!(UnconfirmedServiceChoice::from_code(choice).map(|x| x.code()), Some(choice));
        if choice == 0 || choice == 8 {
            continue;
        }
        assert_eq!(decode(&[0x10, choice]).err(), Some(Error::Unimplemented));
    }
    assert_eq!(decode(&[0x10, 16]).err(), Some(Error::InvalidVariant));
    assert_eq!(decode(&[0x10]).err(), Some(Error::BufferBounds));
}

#[test]
fn an_unconfirmed_request_is_read() {
    match decode(&[0x10, 0x08]) {
        Ok(ApplicationPdu::UnconfirmedRequest(UnconfirmedRequest::WhoIs(_))) => {},
        _ => panic!("a who-is was expected"),
    }
    let bytes = [0x10, 0x00, 0xC4, 0x02, 0x00, 0x4E, 0x78, 0x22, 0x05, 0xC4, 0x91, 0x03, 0x21, 0x07];
    match decode(&bytes) {
        Ok(ApplicationPdu::UnconfirmedRequest(UnconfirmedRequest::IAm(i_am))) => {
            assert_eq!(
                i_am,
                IAm {
                    device_id: ObjectId::new(8, 20088),
                    max_apdu: 1476,
                    segmentation: 3,
                    vendor_id: 7,
                }
            );
        },
        _ => panic!("an i-am was expected"),
    }
    let mut wrong = bytes;
    wrong[10] = 0x21;
    assert_eq!(decode(&wrong).err(), Some(Error::UnexpectedTag));
    assert_eq!(decode(&bytes[..13]).err(), Some(Error::BufferBounds));
}

#[test]
fn an_i_am_is_not_written() {
    let i_am = IAm { device_id: ObjectId::new(8, 1), max_apdu: 1476, segmentation: 3, vendor_id: 7 };
    let pdu = ApplicationPdu::UnconfirmedRequest(UnconfirmedRequest::IAm(i_am));
    assert!(!pdu.encodable());
    assert_eq!(encode(&pdu), Err(Error::Unimplemented));
}

#[test]
fn a_complex_ack_is_read() {
    let bytes = [
        0x30, 0x07, 0x0C, 0x0C, 0x02, 0x00, 0x4E, 0x78, 0x19, 0x4D, 0x3E, 0x75, 0x05, 0x00, 0x41,
        0x42, 0x43, 0x44, 0x3F,
    ];
    match decode(&bytes) {
        Ok(ApplicationPdu::ComplexAck(ack)) => {
            assert_eq!(ack.invoke_id, 7);
            assert!(matches!(ack.service, ComplexAckService::ReadProperty(_)));
        },
        _ => panic!("a complex ack was expected"),
    }
    let bytes = [0x30, 0x07, 0x0E, 0x0C, 0x02, 0x00, 0x4E, 0x78, 0x1E, 0x1F];
    match decode(&bytes) {
        Ok(ApplicationPdu::ComplexAck(ack)) => match ack.service {
            ComplexAckService::ReadPropertyMultiple(x) => assert_eq!(x.objects.len(), 1),
            _ => panic!("another service"),
        },
        _ => panic!("a complex ack was expected"),
    }
}

#[test]
fn a_complex_ack_of_a_range_read_round_trips() {
    let flags = [0x00u8];
    let result_flags = [0xE0u8];
    let items = [ReadRangeItem {
        date: Date { year: 2024, month: 3, day: 15, wday: 5 },
        time: Time { hour: 10, minute: 30, second: 0, hundredths: 0 },
        value: ReadRangeValue::Real(0x41B0_0000),
        status_flags: BitString::new(4, &flags),
    }];
    let ack = ReadRangeAck {
        object_id: ObjectId::new(20, 4),
        property_id: PropertyId(131),
        array_index: BACNET_ARRAY_ALL,
        result_flags: BitString::new(5, &result_flags),
        item_count: 1,
        item_data: ReadRangeItems::new(&items),
    };
    let pdu = ApplicationPdu::ComplexAck(
        ComplexAck { invoke_id: 3, service: ComplexAckService::ReadRange(ack) },
    );
    assert!(pdu.encodable());
    let bytes = encode(&pdu).unwrap();
    assert_eq!(&bytes[..3], &[0x30, 0x03, 0x1A]);
    match decode(&bytes) {
        Ok(ApplicationPdu::ComplexAck(read)) => {
            assert_eq!(read.invoke_id, 3);
            match read.service {
                ComplexAckService::ReadRange(mut x) => {
                    assert_eq!(x.item_count, 1);
                    let item = x.item_data.next().unwrap().unwrap();
                    assert_eq!(item.value, ReadRangeValue::Real(0x41B0_0000));
                    assert!(x.item_data.next().is_none());
                },
                _ => panic!("another service"),
            }
        },
        _ => panic!("a complex ack was expected"),
    }
}

#[test]
fn an_ack_that_is_only_read_is_not_written() {
    let bytes = [0x30, 0x07, 0x0E, 0x0C, 0x02, 0x00, 0x4E, 0x78, 0x1E, 0x1F];
    let pdu = decode(&bytes).unwrap();
    assert!(!pdu.encodable());
    assert_eq!(encode(&pdu), Err(Error::Unimplemented));
}
