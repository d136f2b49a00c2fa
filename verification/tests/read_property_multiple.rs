use bacnet_codec::application_protocol::primitives::data_value::{
    ApplicationDataValue, Date, Time,
};
use bacnet_codec::application_protocol::services::read_property::{ReadProperty, ReadPropertyAck};
use bacnet_codec::application_protocol::services::read_property_multiple::{
    ObjectWithResults, PropertyResult, PropertyValue, ReadPropertyMultiple,
    ReadPropertyMultipleAck,
};
use bacnet_codec::common::error::Error;
use bacnet_codec::common::helper::BACNET_ARRAY_ALL;
use bacnet_codec::common::io::{Reader, Writer};
use bacnet_codec::common::object_id::ObjectId;
use bacnet_codec::common::property_id::{
    PropertyId, PROP_DESCRIPTION, PROP_EVENT_TIME_STAMPS, PROP_OBJECT_NAME, PROP_PRESENT_VALUE,
    PROP_STATUS_FLAGS,
};
use bacnet_codec::common::tag::{ApplicationTagNumber, Tag, TagNumber};

const DEVICE: u16 = 8;

const OBJECT: [u8; 5] = [0x0C, 0x02, 0x00, 0x4E, 0x78];

fn encode_request(request: &ReadPropertyMultiple) -> Vec<u8> {
    let mut buf = [0u8; 128];
    let mut writer = Writer::new(&mut buf);
    request.encode(&mut writer).unwrap();
    writer.to_bytes().to_vec()
}

fn decode_request(bytes: &[u8]) -> Result<(ObjectId, Vec<PropertyId>, u32), Error> {
    let mut reader = Reader::new_with_len(bytes.len());
    let r = ReadPropertyMultiple::decode(&mut reader, bytes)?;
    assert_eq!(reader.index, bytes.len());
    Ok((r.object_id, r.property_ids, r.array_index))
}

fn decode_ack(bytes: &[u8]) -> Result<ReadPropertyMultipleAck<'_>, Error> {
    let mut reader = Reader::new_with_len(bytes.len());
    ReadPropertyMultipleAck::decode(&mut reader, bytes)
}

fn error_of(bytes: &[u8]) -> Option<Error> {
    decode_ack(bytes).err()
}

fn object(results: &[u8]) -> Vec<u8> {
    let mut bytes = OBJECT.to_vec();
    bytes.push(0x1E);
    bytes.extend_from_slice(results);
    bytes.push(0x1F);
    bytes
}

const NAME: [u8; 12] = [0x29, 0x4D, 0x4E, 0x75, 0x05, 0x00, 0x41, 0x42, 0x43, 0x44, 0x4F, 0x00];

const VALUE: [u8; 9] = [0x29, 0x55, 0x4E, 0x44, 0x41, 0xB0, 0x00, 0x00, 0x4F];

#[test]
fn a_multiple_request_has_its_bytes() {
    let request = ReadPropertyMultiple::new(
        ObjectId::new(DEVICE, 20088),
        vec![PropertyId(PROP_OBJECT_NAME), PropertyId(PROP_DESCRIPTION)],
    );
    assert_eq!(request.array_index, BACNET_ARRAY_ALL);
    let mut expected = OBJECT.to_vec();
    expected.extend_from_slice(&[0x1E, 0x09, 0x4D, 0x09, 0x1C, 0x1F]);
    assert_eq!(encode_request(&request), expected);
}

#[test]
fn an_array_index_stands_behind_each_property() {
    let mut request = ReadPropertyMultiple::new(
        ObjectId::new(DEVICE, 20088),
        vec![PropertyId(PROP_OBJECT_NAME), PropertyId(300)],
    );
    request.array_index = 2;
    let mut expected = OBJECT.to_vec();
    expected.extend_from_slice(&[0x1E, 0x09, 0x4D, 0x19, 0x02, 0x0A, 0x01, 0x2C, 0x19, 0x02, 0x1F]);
    assert_eq!(encode_request(&request), expected);
}

#[test]
fn multiple_requests_round_trip() {
    let lists: [Vec<u32>; 4] =
        [vec![], vec![77], vec![77, 28, 85], (0..40).map(|i| i * 1000).collect()];
    for list in lists {
        for array_index in [BACNET_ARRAY_ALL, 0, 1, 70000] {
            if list.is_empty() && array_index != BACNET_ARRAY_ALL {
                continue;
            }
            let ids: Vec<PropertyId> = list.iter().map(|x| PropertyId(*x)).collect();
            let object_id = ObjectId::new(1023, 4194303);
            let mut request = ReadPropertyMultiple::new(object_id, ids.clone());
            request.array_index = array_index;
            let mut buf = [0u8; 512];
            let mut writer = Writer::new(&mut buf);
            request.encode(&mut writer).unwrap();
            assert_eq!(decode_request(writer.to_bytes()), Ok((object_id, ids, array_index)));
        }
    }
}

#[test]
fn a_request_without_properties_has_no_place_for_an_array_index() {
    let mut request = ReadPropertyMultiple::new(ObjectId::new(DEVICE, 20088), vec![]);
    request.array_index = 5;
    let bytes = encode_request(&request);
    let mut expected = OBJECT.to_vec();
    expected.extend_from_slice(&[0x1E, 0x1F]);
    assert_eq!(bytes, expected);
    assert_eq!(
        decode_request(&bytes),
        Ok((ObjectId::new(DEVICE, 20088), vec![], BACNET_ARRAY_ALL))
    );
}

#[test]
fn the_array_index_of_the_last_property_that_has_one_is_kept() {
    let mut bytes = OBJECT.to_vec();
    bytes.extend_from_slice(&[0x1E, 0x09, 0x4D, 0x19, 0x02, 0x09, 0x1C, 0x19, 0x07, 0x09, 0x55, 0x1F]);
    assert_eq!(
        decode_request(&bytes),
        Ok((
            ObjectId::new(DEVICE, 20088),
            vec![PropertyId(77), PropertyId(28), PropertyId(85)],
            7
        ))
    );
}

#[test]
fn a_truncated_multiple_request_fails_for_want_of_bytes() {
    let mut request = ReadPropertyMultiple::new(
        ObjectId::new(DEVICE, 20088),
        vec![PropertyId(PROP_OBJECT_NAME), PropertyId(300)],
    );
    request.array_index = 2;
    let bytes = encode_request(&request);
    for cut in 0..bytes.len() {
        let mut reader = Reader::new_with_len(cut);
        assert_eq!(
            ReadPropertyMultiple::decode(&mut reader, &bytes[..cut]).err(),
            Some(Error::BufferBounds)
        );
    }
}

#[test]
fn a_bad_multiple_request_is_refused() {
    let mut bytes = OBJECT.to_vec();
    bytes.extend_from_slice(&[0x2E, 0x09, 0x4D, 0x2F]);
    assert_eq!(decode_request(&bytes), Err(Error::UnexpectedTag));
    let mut bytes = OBJECT.to_vec();
    bytes.extend_from_slice(&[0x1E, 0x29, 0x4D, 0x1F]);
    assert_eq!(decode_request(&bytes), Err(Error::UnexpectedTag));
    let mut bytes = OBJECT.to_vec();
    bytes.extend_from_slice(&[0x1E, 0x08, 0x1F]);
    assert_eq!(decode_request(&bytes), Err(Error::InvalidValue));
}

#[test]
fn a_multiple_request_that_does_not_fit_is_refused() {
    let request = ReadPropertyMultiple::new(
        ObjectId::new(DEVICE, 20088),
        vec![PropertyId(PROP_OBJECT_NAME), PropertyId(PROP_DESCRIPTION)],
    );
    for capacity in 0..11 {
        let mut buf = [0u8; 11];
        let mut writer = Writer::new(&mut buf[..capacity]);
        assert_eq!(request.encode(&mut writer), Err(Error::BufferBounds));
    }
    let mut buf = [0u8; 11];
    let mut writer = Writer::new(&mut buf);
    assert_eq!(request.encode(&mut writer), Ok(()));
}

#[test]
fn an_object_without_results_is_no_error() {
    let bytes = object(&[]);
    let ack = decode_ack(&bytes).unwrap();
    assert_eq!(ack.objects.len(), 1);
    assert_eq!(ack.objects[0].object_id, ObjectId::new(DEVICE, 20088));
    assert!(ack.objects[0].results.is_empty());
}

#[test]
fn an_acknowledgement_of_no_bytes_has_no_objects() {
    assert!(decode_ack(&[]).unwrap().objects.is_empty());
}

#[test]
fn an_acknowledgement_gives_each_object_its_results() {
    let mut results = NAME[..11].to_vec();
    results.extend_from_slice(&VALUE);
    let mut bytes = object(&results);
    bytes.extend_from_slice(&object(&[]));
    bytes.extend_from_slice(&object(&VALUE));
    let ack = decode_ack(&bytes).unwrap();
    assert_eq!(ack.objects.len(), 3);
    let first: &ObjectWithResults = &ack.objects[0];
    assert_eq!(first.results.len(), 2);
    let name: &PropertyResult = &first.results[0];
    assert_eq!(name.id, PropertyId(PROP_OBJECT_NAME));
    match name.value {
        PropertyValue::PropValue(ApplicationDataValue::CharacterString(text)) => {
            assert_eq!(text.character_set, 0);
            assert_eq!(text.text, b"ABCD");
        },
        _ => panic!("a character string was expected"),
    }
    assert_eq!(first.results[1].id, PropertyId(PROP_PRESENT_VALUE));
    match first.results[1].value {
        PropertyValue::PropValue(ApplicationDataValue::Real(bits)) => {
            assert_eq!(bits, 0x41B0_0000);
        },
        _ => panic!("a real number was expected"),
    }
    assert!(ack.objects[1].results.is_empty());
    assert_eq!(ack.objects[2].results.len(), 1);
}

fn value_of(value: &[u8]) -> Result<ApplicationDataValue<'_>, Error> {
    let mut reader = Reader::new_with_len(value.len());
    let tag = Tag::decode(&mut reader, value)?;
    let decoded = ApplicationDataValue::decode(&tag, &mut reader, value)?;
    assert_eq!(reader.index, value.len());
    Ok(decoded)
}

#[test]
fn each_kind_of_value_is_read() {
    assert!(matches!(value_of(&[0x00]), Ok(ApplicationDataValue::Null)));
    assert!(matches!(value_of(&[0x11]), Ok(ApplicationDataValue::Boolean(true))));
    assert!(matches!(value_of(&[0x10]), Ok(ApplicationDataValue::Boolean(false))));
    assert!(matches!(value_of(&[0x22, 0x05, 0xC4]), Ok(ApplicationDataValue::UnsignedInt(1476))));
    assert!(matches!(value_of(&[0x31, 0xFF]), Ok(ApplicationDataValue::SignedInt(-1))));
    assert!(matches!(
        value_of(&[0x44, 0x41, 0xB0, 0x00, 0x00]),
        Ok(ApplicationDataValue::Real(0x41B0_0000))
    ));
    assert!(matches!(value_of(&[0x91, 0x03]), Ok(ApplicationDataValue::Enumerated(3))));
    match value_of(&[0x63, 1, 2, 3]) {
        Ok(ApplicationDataValue::OctetString(bytes)) => assert_eq!(bytes, &[1, 2, 3]),
        _ => panic!("an octet string was expected"),
    }
    match value_of(&[0x82, 0x04, 0xF0]) {
        Ok(ApplicationDataValue::BitString(bits)) => {
            assert_eq!(bits.unused_bits, 4);
            assert_eq!(bits.bits, &[0xF0]);
        },
        _ => panic!("a bit string was expected"),
    }
    match value_of(&[0xA4, 124, 3, 15, 5]) {
        Ok(ApplicationDataValue::Date(date)) => {
            assert_eq!(date, Date { year: 2024, month: 3, day: 15, wday: 5 });
        },
        _ => panic!("a date was expected"),
    }
    match value_of(&[0xB4, 10, 30, 0, 99]) {
        Ok(ApplicationDataValue::Time(time)) => {
            assert_eq!(time, Time { hour: 10, minute: 30, second: 0, hundredths: 99 });
        },
        _ => panic!("a time was expected"),
    }
    match value_of(&[0xC4, 0x02, 0x00, 0x4E, 0x78]) {
        Ok(ApplicationDataValue::ObjectId(id)) => assert_eq!(id, ObjectId::new(DEVICE, 20088)),
        _ => panic!("an object identifier was expected"),
    }
}

#[test]
fn values_that_are_not_read_are_refused() {
    assert_eq!(value_of(&[0x55, 8, 0, 0, 0, 0, 0, 0, 0, 0]).err(), Some(Error::Unimplemented));
    assert_eq!(value_of(&[0xD1, 0]).err(), Some(Error::Unimplemented));
    assert_eq!(value_of(&[0x09, 1]).err(), Some(Error::TagNotSupported));
    assert_eq!(value_of(&[0x0E]).err(), Some(Error::TagNotSupported));
    assert_eq!(value_of(&[0x70]).err(), Some(Error::InvalidValue));
    assert_eq!(value_of(&[0x80]).err(), Some(Error::InvalidValue));
    assert_eq!(value_of(&[0xC3, 0, 0, 0]).err(), Some(Error::InvalidValue));
    assert_eq!(value_of(&[0x25, 5, 0, 0, 0, 0, 0]).err(), Some(Error::InvalidValue));
    assert_eq!(value_of(&[0x44, 0x41, 0xB0]).err(), Some(Error::BufferBounds));
    let tag = Tag::new(TagNumber::Application(ApplicationTagNumber::OctetString), u32::MAX);
    let mut reader = Reader::new_with_len(3);
    assert_eq!(
        ApplicationDataValue::decode(&tag, &mut reader, &[1, 2, 3]).err(),
        Some(Error::BufferBounds)
    );
}

#[test]
fn the_value_of_the_event_time_stamps_is_stepped_over() {
    let mut results = vec![0x29, PROP_EVENT_TIME_STAMPS as u8, 0x4E];
    results.extend_from_slice(&[0x0E, 0x2E, 0xA4, 0xFF, 0xFF, 0xFF, 0xFF, 0x2F, 0x0F, 0x4F]);
    results.extend_from_slice(&VALUE);
    let bytes = object(&results);
    let ack = decode_ack(&bytes).unwrap();
    assert_eq!(ack.objects[0].results.len(), 2);
    assert_eq!(ack.objects[0].results[0].id, PropertyId(PROP_EVENT_TIME_STAMPS));
    assert!(matches!(ack.objects[0].results[0].value, PropertyValue::Unmodeled));
    assert_eq!(ack.objects[0].results[1].id, PropertyId(PROP_PRESENT_VALUE));
}

#[test]
fn the_step_over_an_unread_value_stops_at_the_first_byte_that_looks_like_its_end() {
    // the byte 0x4F stands inside the value: what follows it is taken for the next result
    let mut results = vec![0x29, PROP_EVENT_TIME_STAMPS as u8, 0x4E];
    results.extend_from_slice(&[0x21, 0x4F, 0x4F]);
    let bytes = object(&results);
    assert_eq!(error_of(&bytes), Some(Error::UnexpectedTag));
    // and where no such byte comes, the bytes run out
    let mut results = vec![0x29, PROP_EVENT_TIME_STAMPS as u8, 0x4E];
    results.extend_from_slice(&[0x21, 0x05]);
    let bytes = object(&results);
    assert_eq!(error_of(&bytes), Some(Error::BufferBounds));
}

#[test]
fn a_bad_multiple_acknowledgement_is_refused() {
    assert_eq!(error_of(&[0x1C, 0x02, 0x00, 0x4E, 0x78, 0x1E, 0x1F]), Some(Error::UnexpectedTag));
    assert_eq!(error_of(&[0x0C, 0x02, 0x00, 0x4E, 0x78, 0x2E, 0x1F]), Some(Error::UnexpectedTag));
    assert_eq!(error_of(&[0x0C, 0x02, 0x00, 0x4E, 0x78, 0x19, 0x4D]), Some(Error::UnexpectedTag));
    assert_eq!(error_of(&object(&[0x19, 0x4D])), Some(Error::UnexpectedTag));
    assert_eq!(error_of(&object(&[0x29, 0x4D, 0x3E, 0x11, 0x3F])), Some(Error::UnexpectedTag));
    assert_eq!(error_of(&object(&[0x29, 0x4D, 0x4E, 0x11, 0x3F])), Some(Error::UnexpectedTag));
    assert_eq!(error_of(&object(&[0x29, 0x4D, 0x4E, 0x55, 0x4F])), Some(Error::Unimplemented));
    assert_eq!(error_of(&object(&[0x29, 0x4D, 0x4E, 0x19, 0x4F])), Some(Error::TagNotSupported));
    assert_eq!(error_of(&object(&[0x2D, 0x05, 1, 2, 3, 4, 5])), Some(Error::InvalidValue));
}

#[test]
fn an_acknowledgement_that_is_cut_short_fails_for_want_of_bytes() {
    let mut results = NAME[..11].to_vec();
    results.extend_from_slice(&VALUE);
    let bytes = object(&results);
    for cut in 1..bytes.len() {
        assert_eq!(error_of(&bytes[..cut]), Some(Error::BufferBounds));
    }
    // between two objects the bytes may end
    let mut two = bytes.clone();
    two.extend_from_slice(&bytes);
    assert_eq!(decode_ack(&two[..bytes.len()]).unwrap().objects.len(), 1);
}

#[test]
fn a_read_property_request_has_its_bytes() {
    let request = ReadProperty::new(ObjectId::new(DEVICE, 20088), PropertyId(PROP_OBJECT_NAME));
    let mut buf = [0u8; 16];
    let mut writer = Writer::new(&mut buf);
    request.encode(&mut writer).unwrap();
    assert_eq!(writer.to_bytes(), &[0x0C, 0x02, 0x00, 0x4E, 0x78, 0x19, 0x4D]);
    let bytes = writer.to_bytes().to_vec();
    let mut reader = Reader::new_with_len(bytes.len());
    assert_eq!(ReadProperty::decode(&mut reader, &bytes), Ok(request));
}

#[test]
fn a_read_property_request_round_trips_with_an_array_index() {
    let mut request = ReadProperty::new(ObjectId::new(3, 7), PropertyId(PROP_STATUS_FLAGS));
    request.array_index = 300;
    let mut buf = [0u8; 16];
    let mut writer = Writer::new(&mut buf);
    request.encode(&mut writer).unwrap();
    assert_eq!(writer.to_bytes(), &[0x0C, 0x00, 0xC0, 0x00, 0x07, 0x19, 0x6F, 0x2A, 0x01, 0x2C]);
    let bytes = writer.to_bytes().to_vec();
    let mut reader = Reader::new_with_len(bytes.len());
    assert_eq!(ReadProperty::decode(&mut reader, &bytes), Ok(request));
    let mut reader = Reader::new_with_len(bytes.len());
    let mut wrong = bytes.clone();
    wrong[7] = 0x3A;
    assert_eq!(ReadProperty::decode(&mut reader, &wrong), Err(Error::UnexpectedTag));
}

#[test]
fn a_read_property_acknowledgement_is_read() {
    let mut bytes = OBJECT.to_vec();
    bytes.extend_from_slice(&[0x19, 0x4D, 0x3E, 0x75, 0x05, 0x00, 0x41, 0x42, 0x43, 0x44, 0x3F]);
    let mut reader = Reader::new_with_len(bytes.len());
    let ack = ReadPropertyAck::decode(&mut reader, &bytes).unwrap();
    assert!(reader.eof());
    assert_eq!(ack.object_id, ObjectId::new(DEVICE, 20088));
    assert_eq!(ack.property_id, PropertyId(PROP_OBJECT_NAME));
    match ack.property_value {
        PropertyValue::PropValue(ApplicationDataValue::CharacterString(text)) => {
            assert_eq!(text.text, b"ABCD");
        },
        _ => panic!("a character string was expected"),
    }
    let mut wrong = bytes.clone();
    wrong[7] = 0x4E;
    let mut reader = Reader::new_with_len(wrong.len());
    assert_eq!(ReadPropertyAck::decode(&mut reader, &wrong).err(), Some(Error::UnexpectedTag));
    let mut reader = Reader::new_with_len(bytes.len() - 1);
    assert_eq!(
        ReadPropertyAck::decode(&mut reader, &bytes[..bytes.len() - 1]).err(),
        Some(Error::BufferBounds)
    );
}
