use bacnet_codec::application_protocol::primitives::data_value::{BitString, Date, Time};
use bacnet_codec::application_protocol::services::read_range::{
    ReadRange, ReadRangeAck, ReadRangeByPosition, ReadRangeBySequence, ReadRangeByTime,
    ReadRangeItem, ReadRangeItems, ReadRangeRequestType, ReadRangeValue, ReadRangeValueType,
};
use bacnet_codec::common::error::Error;
use bacnet_codec::common::helper::BACNET_ARRAY_ALL;
use bacnet_codec::common::io::{Reader, Writer};
use bacnet_codec::common::object_id::ObjectId;
use bacnet_codec::common::property_id::{PropertyId, PROP_LOG_BUFFER};

const TREND_LOG: u16 = 20;

fn encode_request(request: &ReadRange) -> Vec<u8> {
    let mut buf = [0u8; 64];
    let mut writer = Writer::new(&mut buf);
    request.encode(&mut writer).unwrap();
    writer.to_bytes().to_vec()
}

fn decode_request(bytes: &[u8]) -> Result<ReadRange, Error> {
    let mut reader = Reader::new_with_len(bytes.len());
    ReadRange::decode(&mut reader, bytes)
}

fn request(request_type: ReadRangeRequestType) -> ReadRange {
    ReadRange::new(ObjectId::new(TREND_LOG, 4), PropertyId(PROP_LOG_BUFFER), request_type)
}

fn date() -> Date {
    Date { year: 2024, month: 3, day: 15, wday: 5 }
}

fn time() -> Time {
    Time { hour: 10, minute: 30, second: 0, hundredths: 0 }
}

const HEAD: [u8; 7] = [0x0C, 0x05, 0x00, 0x00, 0x04, 0x19, 0x83];

const ITEM_22: [u8; 22] = [
    0x0E, 0xA4, 0x7C, 0x03, 0x0F, 0x05, 0xB4, 0x0A, 0x1E, 0x00, 0x00, 0x0F, 0x1E, 0x2C, 0x41, 0xB0,
    0x00, 0x00, 0x1F, 0x2A, 0x04, 0x00,
];

fn item<'a>(bits: u32, flags: &'a [u8]) -> ReadRangeItem<'a> {
    ReadRangeItem {
        date: date(),
        time: time(),
        value: ReadRangeValue::Real(bits),
        status_flags: BitString::new(4, flags),
    }
}

#[test]
fn a_request_by_position_has_its_bytes() {
    let r = request(ReadRangeRequestType::ByPosition(ReadRangeByPosition { index: 1, count: 10 }));
    let mut expected = HEAD.to_vec();
    expected.extend_from_slice(&[0x3E, 0x21, 0x01, 0x31, 0x0A, 0x3F]);
    assert_eq!(encode_request(&r), expected);
}

#[test]
fn a_request_by_sequence_has_its_bytes() {
    let r = request(
        ReadRangeRequestType::BySequence(ReadRangeBySequence { sequence_num: 70000, count: 2 }),
    );
    let mut expected = HEAD.to_vec();
    expected.extend_from_slice(&[0x6E, 0x23, 0x01, 0x11, 0x70, 0x31, 0x02, 0x6F]);
    assert_eq!(encode_request(&r), expected);
}

#[test]
fn a_request_by_time_has_its_bytes() {
    let r = request(
        ReadRangeRequestType::ByTime(ReadRangeByTime { date: date(), time: time(), count: 5 }),
    );
    let mut expected = HEAD.to_vec();
    expected.extend_from_slice(&[
        0x7E, 0x7C, 0x03, 0x0F, 0x05, 0x0A, 0x1E, 0x00, 0x00, 0x31, 0x05, 0x7F,
    ]);
    assert_eq!(encode_request(&r), expected);
}

#[test]
fn a_request_for_all_items_ends_behind_the_property() {
    let r = request(ReadRangeRequestType::All);
    assert_eq!(r.array_index, BACNET_ARRAY_ALL);
    assert_eq!(encode_request(&r), HEAD.to_vec());
}

#[test]
fn an_array_index_stands_behind_the_property() {
    let mut r = request(ReadRangeRequestType::All);
    r.array_index = 3;
    let mut expected = HEAD.to_vec();
    expected.extend_from_slice(&[0x29, 0x03]);
    assert_eq!(encode_request(&r), expected);
}

#[test]
fn requests_round_trip() {
    let selections = [
        ReadRangeRequestType::ByPosition(ReadRangeByPosition { index: 1, count: 10 }),
        ReadRangeRequestType::ByPosition(ReadRangeByPosition { index: u32::MAX, count: 0 }),
        ReadRangeRequestType::ByPosition(
            ReadRangeByPosition { index: 65536, count: 0x7FFF_FFFF },
        ),
        ReadRangeRequestType::BySequence(ReadRangeBySequence { sequence_num: 70000, count: 2 }),
        ReadRangeRequestType::BySequence(ReadRangeBySequence { sequence_num: 0, count: 300 }),
        ReadRangeRequestType::ByTime(ReadRangeByTime { date: date(), time: time(), count: 5 }),
        ReadRangeRequestType::ByTime(
            ReadRangeByTime {
                date: Date { year: 1900, month: 255, day: 255, wday: 255 },
                time: Time { hour: 23, minute: 59, second: 59, hundredths: 99 },
                count: 40000,
            },
        ),
        ReadRangeRequestType::ByTime(
            ReadRangeByTime {
                date: Date { year: 2155, month: 1, day: 1, wday: 1 },
                time: time(),
                count: 1,
            },
        ),
        ReadRangeRequestType::All,
    ];
    for selection in selections {
        for array_index in [BACNET_ARRAY_ALL, 0, 3, 70000] {
            let mut r = request(selection);
            r.array_index = array_index;
            r.object_id = ObjectId::new(1023, 4194303);
            r.property_id = PropertyId(4194303);
            assert_eq!(decode_request(&encode_request(&r)), Ok(r));
        }
    }
}

#[test]
fn a_count_may_stand_as_an_unsigned_number() {
    let mut bytes = HEAD.to_vec();
    bytes.extend_from_slice(&[0x3E, 0x21, 0x01, 0x21, 0x0A, 0x3F]);
    assert_eq!(
        decode_request(&bytes),
        Ok(request(ReadRangeRequestType::ByPosition(ReadRangeByPosition { index: 1, count: 10 })))
    );
}

#[test]
fn a_negative_count_is_refused() {
    let mut bytes = HEAD.to_vec();
    bytes.extend_from_slice(&[0x3E, 0x21, 0x01, 0x31, 0xF6, 0x3F]);
    assert_eq!(decode_request(&bytes), Err(Error::InvalidValue));
    let mut bytes = HEAD.to_vec();
    bytes.extend_from_slice(&[0x7E, 0x7C, 0x03, 0x0F, 0x05, 0x0A, 0x1E, 0x00, 0x00, 0x31, 0xFF, 0x7F]);
    assert_eq!(decode_request(&bytes), Err(Error::InvalidValue));
}

#[test]
fn a_count_above_the_largest_signed_number_goes_out_negative() {
    let r = request(
        ReadRangeRequestType::ByPosition(ReadRangeByPosition { index: 1, count: 0xFFFF_FFF6 }),
    );
    let mut expected = HEAD.to_vec();
    expected.extend_from_slice(&[0x3E, 0x21, 0x01, 0x31, 0xF6, 0x3F]);
    assert_eq!(encode_request(&r), expected);
    assert_eq!(decode_request(&expected), Err(Error::InvalidValue));
}

#[test]
fn a_count_of_another_type_is_refused() {
    let mut bytes = HEAD.to_vec();
    bytes.extend_from_slice(&[0x3E, 0x21, 0x01, 0x91, 0x0A, 0x3F]);
    assert_eq!(decode_request(&bytes), Err(Error::TagNotSupported));
}

#[test]
fn an_unknown_selection_is_refused() {
    for opening in [0x4Eu8, 0x5E, 0x8E, 0x3F, 0x39] {
        let mut bytes = HEAD.to_vec();
        bytes.extend_from_slice(&[opening, 0x21, 0x01, 0x31, 0x0A, 0x3F]);
        assert_eq!(decode_request(&bytes), Err(Error::TagNotSupported));
    }
}

#[test]
fn a_wrong_closing_tag_is_refused() {
    let mut bytes = HEAD.to_vec();
    bytes.extend_from_slice(&[0x3E, 0x21, 0x01, 0x31, 0x0A, 0x6F]);
    assert_eq!(decode_request(&bytes), Err(Error::UnexpectedTag));
    let mut bytes = HEAD.to_vec();
    bytes.extend_from_slice(&[0x3E, 0x31, 0x01, 0x31, 0x0A, 0x3F]);
    assert_eq!(decode_request(&bytes), Err(Error::UnexpectedTag));
}

#[test]
fn a_truncated_request_fails_for_want_of_bytes_or_asks_for_all() {
    let mut r = request(ReadRangeRequestType::ByPosition(ReadRangeByPosition { index: 1, count: 10 }));
    r.array_index = 3;
    let bytes = encode_request(&r);
    for cut in 0..bytes.len() {
        let result = decode_request(&bytes[..cut]);
        if cut == 7 {
            // the bytes end behind the property
            assert_eq!(result, Ok(request(ReadRangeRequestType::All)));
        } else if cut == 9 {
            // the bytes end behind the array index
            let mut all = request(ReadRangeRequestType::All);
            all.array_index = 3;
            assert_eq!(result, Ok(all));
        } else {
            assert_eq!(result, Err(Error::BufferBounds));
        }
    }
}

#[test]
fn a_request_that_does_not_fit_is_refused() {
    let r = request(ReadRangeRequestType::ByPosition(ReadRangeByPosition { index: 1, count: 10 }));
    for capacity in 0..13 {
        let mut buf = [0u8; 13];
        let mut writer = Writer::new(&mut buf[..capacity]);
        assert_eq!(r.encode(&mut writer), Err(Error::BufferBounds));
    }
    let mut buf = [0u8; 13];
    let mut writer = Writer::new(&mut buf);
    assert_eq!(r.encode(&mut writer), Ok(()));
}

#[test]
fn the_kinds_of_value_have_their_numbers() {
    let kinds = [
        ReadRangeValueType::Status,
        ReadRangeValueType::Bool,
        ReadRangeValueType::Real,
        ReadRangeValueType::Enum,
        ReadRangeValueType::Unsigned,
        ReadRangeValueType::Signed,
        ReadRangeValueType::Bits,
        ReadRangeValueType::Null,
        ReadRangeValueType::Error,
        ReadRangeValueType::Delta,
        ReadRangeValueType::Any,
    ];
    for (code, kind) in kinds.iter().enumerate() {
        assert_eq!(kind.code(), code as u8);
        assert_eq!(ReadRangeValueType::from_code(code as u8), Some(*kind));
    }
    assert_eq!(ReadRangeValueType::from_code(11), None);
    assert_eq!(ReadRangeValueType::from_code(255), None);
}

#[test]
fn an_item_has_its_bytes() {
    let flags = [0x00u8];
    let mut buf = [0u8; 64];
    let mut writer = Writer::new(&mut buf);
    item(0x41B0_0000, &flags).encode(&mut writer).unwrap();
    assert_eq!(writer.to_bytes(), &ITEM_22);
}

#[test]
fn an_item_of_another_kind_is_not_written() {
    let flags = [0x00u8];
    let mut other = item(0, &flags);
    other.value = ReadRangeValue::Unsigned(7);
    let mut buf = [0u8; 64];
    let mut writer = Writer::new(&mut buf);
    assert_eq!(other.encode(&mut writer), Err(Error::Unimplemented));
    assert_eq!(writer.index, 0);
    let items = [item(1, &flags), other, item(2, &flags)];
    let list = ReadRangeItems::new(&items);
    assert!(!list.encodable());
    assert_eq!(list.encode(&mut writer), Err(Error::Unimplemented));
    assert_eq!(writer.index, 0);
}

fn pull_all<'a>(items: &mut ReadRangeItems<'a>) -> Vec<Result<ReadRangeItem<'a>, Error>> {
    let mut pulled = Vec::new();
    while let Some(x) = items.next() {
        pulled.push(x);
    }
    pulled
}

fn same_item(a: &ReadRangeItem, b: &ReadRangeItem) -> bool {
    a.date == b.date && a.time == b.time && a.value == b.value
        && a.status_flags.unused_bits == b.status_flags.unused_bits
        && a.status_flags.bits == b.status_flags.bits
}

#[test]
fn pulling_gives_every_item_and_then_ends() {
    let flags = [0x00u8];
    let long_flags = [0xF0u8, 0x0F, 0xAA];
    for n in [0usize, 1, 2, 7, 50] {
        let mut list = Vec::new();
        for i in 0..n {
            if i % 2 == 0 {
                list.push(item(0x41B0_0000 + i as u32, &flags));
            } else {
                list.push(item(i as u32, &long_flags));
            }
        }
        let mut buf = [0u8; 2048];
        let mut writer = Writer::new(&mut buf);
        let to_write = ReadRangeItems::new(&list);
        assert!(to_write.encodable());
        to_write.encode(&mut writer).unwrap();
        let bytes = writer.to_bytes().to_vec();

        let mut items = ReadRangeItems::new_from_buf(&bytes);
        let pulled = pull_all(&mut items);
        assert_eq!(pulled.len(), n);
        for i in 0..n {
            assert!(same_item(pulled[i].as_ref().unwrap(), &list[i]));
        }
        assert!(items.next().is_none());
        assert!(items.next().is_none());
    }
}

#[test]
fn pulling_from_nothing_ends_at_once() {
    let mut items = ReadRangeItems::new_from_buf(&[]);
    assert!(items.next().is_none());
    let list: [ReadRangeItem; 0] = [];
    let mut to_write = ReadRangeItems::new(&list);
    assert!(to_write.next().is_none());
}

#[test]
fn an_item_of_a_kind_that_is_not_read_is_reported_and_stepped_over() {
    // the second item holds an unsigned number (kind 4), the third an error in a bracket
    let mut bytes = ITEM_22.to_vec();
    bytes.extend_from_slice(&[
        0x0E, 0xA4, 0x7C, 0x03, 0x0F, 0x05, 0xB4, 0x0A, 0x1E, 0x00, 0x00, 0x0F, 0x1E, 0x49, 0x07,
        0x1F, 0x2A, 0x04, 0x00,
    ]);
    bytes.extend_from_slice(&[
        0x0E, 0xA4, 0x7C, 0x03, 0x0F, 0x05, 0xB4, 0x0A, 0x1E, 0x00, 0x00, 0x0F, 0x1E, 0x8E, 0x91,
        0x02, 0x91, 0x1F, 0x8F, 0x1F, 0x2A, 0x04, 0x00,
    ]);
    bytes.extend_from_slice(&ITEM_22);
    let mut items = ReadRangeItems::new_from_buf(&bytes);
    assert!(items.next().unwrap().is_ok());
    assert_eq!(items.reader.index, 22);
    assert_eq!(items.next().unwrap().err(), Some(Error::Unimplemented));
    assert_eq!(items.reader.index, 41);
    assert_eq!(items.next().unwrap().err(), Some(Error::TagNotSupported));
    assert_eq!(items.reader.index, 64);
    let last = items.next().unwrap().unwrap();
    assert_eq!(last.value, ReadRangeValue::Real(0x41B0_0000));
    assert!(items.next().is_none());
}

#[test]
fn an_item_whose_end_cannot_be_found_ends_the_sequence() {
    // the bracket of the value is not closed
    let mut bytes = ITEM_22.to_vec();
    bytes[18] = 0x0F;
    bytes.extend_from_slice(&ITEM_22);
    let mut items = ReadRangeItems::new_from_buf(&bytes);
    assert_eq!(items.next().unwrap().err(), Some(Error::UnexpectedTag));
    assert_eq!(items.reader.index, bytes.len());
    assert!(items.next().is_none());
}

#[test]
fn bad_items_are_told_apart() {
    let cases: [(usize, u8, Error); 7] = [
        (0, 0x1E, Error::UnexpectedTag),
        (1, 0xB4, Error::UnexpectedTag),
        (11, 0x1F, Error::UnexpectedTag),
        (13, 0xBC, Error::InvalidVariant),
        (13, 0x24, Error::TagNotSupported),
        (13, 0x2E, Error::TagNotSupported),
        (19, 0x3A, Error::UnexpectedTag),
    ];
    for (at, byte, error) in cases {
        let mut bytes = ITEM_22.to_vec();
        bytes[at] = byte;
        let mut items = ReadRangeItems::new_from_buf(&bytes);
        assert_eq!(items.next().unwrap().err(), Some(error));
        assert!(items.next().is_none());
    }
    // status flags of no bytes at all
    let mut bytes = ITEM_22[..19].to_vec();
    bytes.push(0x28);
    let mut items = ReadRangeItems::new_from_buf(&bytes);
    assert_eq!(items.next().unwrap().err(), Some(Error::InvalidValue));
}

#[test]
fn a_truncated_item_fails_for_want_of_bytes() {
    for cut in 1..ITEM_22.len() {
        let mut items = ReadRangeItems::new_from_buf(&ITEM_22[..cut]);
        assert_eq!(items.next().unwrap().err(), Some(Error::BufferBounds));
        assert!(items.next().is_none());
    }
}

fn ack_bytes(items: &[u8]) -> Vec<u8> {
    let mut bytes = vec![0x1A];
    bytes.extend_from_slice(&HEAD);
    bytes.extend_from_slice(&[0x3A, 0x05, 0xE0, 0x49, 0x02, 0x5E]);
    bytes.extend_from_slice(items);
    bytes.push(0x5F);
    bytes
}

#[test]
fn an_acknowledgement_has_its_bytes() {
    let flags = [0x00u8];
    let result_flags = [0xE0u8];
    let items = [item(0x41B0_0000, &flags), item(0x41B0_0000, &flags)];
    let ack = ReadRangeAck {
        object_id: ObjectId::new(TREND_LOG, 4),
        property_id: PropertyId(PROP_LOG_BUFFER),
        array_index: BACNET_ARRAY_ALL,
        result_flags: BitString::new(5, &result_flags),
        item_count: 2,
        item_data: ReadRangeItems::new(&items),
    };
    let mut buf = [0u8; 128];
    let mut writer = Writer::new(&mut buf);
    ack.encode(&mut writer).unwrap();
    let mut two = ITEM_22.to_vec();
    two.extend_from_slice(&ITEM_22);
    assert_eq!(writer.to_bytes(), &ack_bytes(&two)[..]);
}

#[test]
fn an_acknowledgement_round_trips() {
    let flags = [0x00u8];
    let result_flags = [0xE0u8];
    for n in [0usize, 1, 3] {
        for array_index in [BACNET_ARRAY_ALL, 2] {
            let list: Vec<ReadRangeItem> = (0..n).map(|i| item(i as u32, &flags)).collect();
            let ack = ReadRangeAck {
                object_id: ObjectId::new(TREND_LOG, 4),
                property_id: PropertyId(PROP_LOG_BUFFER),
                array_index,
                result_flags: BitString::new(5, &result_flags),
                item_count: n,
                item_data: ReadRangeItems::new(&list),
            };
            let mut buf = [0u8; 256];
            let mut writer = Writer::new(&mut buf);
            ack.encode(&mut writer).unwrap();
            let bytes = writer.to_bytes().to_vec();
            assert_eq!(bytes[0], 26);

            let mut reader = Reader::new_with_len(bytes.len());
            reader.read_byte(&bytes).unwrap();
            let mut read = ReadRangeAck::decode(&mut reader, &bytes).unwrap();
            assert!(reader.eof());
            assert_eq!(read.object_id, ack.object_id);
            assert_eq!(read.property_id, ack.property_id);
            assert_eq!(read.array_index, array_index);
            assert_eq!(read.result_flags.unused_bits, 5);
            assert_eq!(read.result_flags.bits, &result_flags);
            assert_eq!(read.item_count, n);
            assert!(read.item_data.items.is_empty());
            let pulled = pull_all(&mut read.item_data);
            assert_eq!(pulled.len(), n);
            for i in 0..n {
                assert!(same_item(pulled[i].as_ref().unwrap(), &list[i]));
            }
        }
    }
}

#[test]
fn an_acknowledgement_that_ends_behind_the_count_has_no_items() {
    let bytes = ack_bytes(&[]);
    let cut = &bytes[1..bytes.len() - 2];
    let mut reader = Reader::new_with_len(cut.len());
    let mut read = ReadRangeAck::decode(&mut reader, cut).unwrap();
    assert_eq!(read.item_count, 2);
    assert!(read.item_data.next().is_none());
}

#[test]
fn the_items_are_not_read_when_the_acknowledgement_is() {
    // the bracket holds a tagged value that is no item
    let bytes = ack_bytes(&[0x09, 0x07]);
    let mut reader = Reader::new_with_len(bytes.len() - 1);
    let mut read = ReadRangeAck::decode(&mut reader, &bytes[1..]).unwrap();
    assert_eq!(read.item_data.next().unwrap().err(), Some(Error::UnexpectedTag));
    assert!(read.item_data.next().is_none());
}

#[test]
fn a_bad_acknowledgement_is_refused() {
    let good = ack_bytes(&ITEM_22);
    let decode = |bytes: &[u8]| {
        let mut reader = Reader::new_with_len(bytes.len());
        ReadRangeAck::decode(&mut reader, bytes).map(|_| ())
    };
    assert_eq!(decode(&good[1..]), Ok(()));
    let mut bytes = good[1..].to_vec();
    bytes[7] = 0x4A;  // the flags behind the tag 4
    assert_eq!(decode(&bytes), Err(Error::UnexpectedTag));
    let mut bytes = good[1..].to_vec();
    bytes[10] = 0x39;  // the count behind the tag 3
    assert_eq!(decode(&bytes), Err(Error::UnexpectedTag));
    let mut bytes = good[1..].to_vec();
    bytes[12] = 0x6E;  // the items in the bracket 6
    assert_eq!(decode(&bytes), Err(Error::UnexpectedTag));
    let bytes = &good[1..good.len() - 1];  // the bracket is not closed
    assert_eq!(decode(bytes), Err(Error::BufferBounds));
}
