use bacnet_codec::common::error::Error;
use bacnet_codec::common::io::{Reader, Writer};
use bacnet_codec::common::tag::{
    decode_tag_number, is_closing_tag, is_context_specific, is_extended_tag_number,
    is_extended_value, is_opening_tag, ApplicationTagNumber, Tag, TagNumber,
};

fn encode_tag(tag: &Tag) -> Vec<u8> {
    let mut buf = [0u8; 16];
    let mut writer = Writer::new(&mut buf);
    tag.encode(&mut writer).unwrap();
    writer.to_bytes().to_vec()
}

fn decode_tag(bytes: &[u8]) -> Result<(Tag, usize), Error> {
    let mut reader = Reader::new_with_len(bytes.len());
    let tag = Tag::decode(&mut reader, bytes)?;
    Ok((tag, reader.index))
}

const BOUNDARY_VALUES: [u32; 9] = [0, 4, 5, 253, 254, 65534, 65535, 65536, 4294967295];

const BOUNDARY_LENGTHS: [usize; 9] = [1, 1, 2, 2, 4, 4, 4, 6, 6];

#[test]
fn context_tag_0_with_value_4_is_one_byte() {
    let tag = Tag::new(TagNumber::ContextSpecific(0), 4);
    assert_eq!(encode_tag(&tag), vec![0x0C]);
}

#[test]
fn context_tag_0_with_value_4_stands_before_its_four_bytes() {
    let mut buf = [0u8; 8];
    let mut writer = Writer::new(&mut buf);
    Tag::new(TagNumber::ContextSpecific(0), 4).encode(&mut writer).unwrap();
    writer.extend_from_slice(&[0x02, 0x00, 0x4E, 0x78]).unwrap();
    assert_eq!(writer.to_bytes(), &[0x0C, 0x02, 0x00, 0x4E, 0x78]);
}

#[test]
fn context_tag_1_with_value_300_takes_the_two_byte_form() {
    let tag = Tag::new(TagNumber::ContextSpecific(1), 300);
    assert_eq!(encode_tag(&tag), vec![0x1D, 0xFE, 0x01, 0x2C]);
}

#[test]
fn each_form_of_the_value_has_its_bytes() {
    let number = TagNumber::Application(ApplicationTagNumber::OctetString);
    assert_eq!(encode_tag(&Tag::new(number, 0)), vec![0x60]);
    assert_eq!(encode_tag(&Tag::new(number, 4)), vec![0x64]);
    assert_eq!(encode_tag(&Tag::new(number, 5)), vec![0x65, 5]);
    assert_eq!(encode_tag(&Tag::new(number, 253)), vec![0x65, 253]);
    assert_eq!(encode_tag(&Tag::new(number, 254)), vec![0x65, 254, 0, 254]);
    assert_eq!(encode_tag(&Tag::new(number, 65535)), vec![0x65, 254, 0xFF, 0xFF]);
    assert_eq!(encode_tag(&Tag::new(number, 65536)), vec![0x65, 255, 0, 1, 0, 0]);
    assert_eq!(
        encode_tag(&Tag::new(number, 0x1234_5678)),
        vec![0x65, 255, 0x12, 0x34, 0x56, 0x78]
    );
}

#[test]
fn a_context_number_above_14_takes_a_byte_of_its_own() {
    assert_eq!(encode_tag(&Tag::new(TagNumber::ContextSpecific(14), 1)), vec![0xE9]);
    assert_eq!(encode_tag(&Tag::new(TagNumber::ContextSpecific(15), 1)), vec![0xF9, 15]);
    assert_eq!(
        encode_tag(&Tag::new(TagNumber::ContextSpecific(200), 300)),
        vec![0xFD, 200, 0xFE, 0x01, 0x2C]
    );
}

#[test]
fn brackets_are_one_byte_without_a_value() {
    assert_eq!(encode_tag(&Tag::new(TagNumber::ContextSpecificOpening(1), 0)), vec![0x1E]);
    assert_eq!(encode_tag(&Tag::new(TagNumber::ContextSpecificClosing(1), 0)), vec![0x1F]);
    assert_eq!(encode_tag(&Tag::new(TagNumber::ContextSpecificClosing(4), 0)), vec![0x4F]);
    assert_eq!(encode_tag(&Tag::new(TagNumber::ContextSpecificOpening(20), 0)), vec![0xFE, 20]);
    assert_eq!(
        decode_tag(&[0x3E]),
        Ok((Tag::new(TagNumber::ContextSpecificOpening(3), 0), 1))
    );
    assert_eq!(
        decode_tag(&[0xFF, 99]),
        Ok((Tag::new(TagNumber::ContextSpecificClosing(99), 0), 2))
    );
}

#[test]
fn tags_round_trip_at_the_boundary_values() {
    let numbers = [
        TagNumber::Application(ApplicationTagNumber::Null),
        TagNumber::Application(ApplicationTagNumber::UnsignedInt),
        TagNumber::Application(ApplicationTagNumber::Reserve3),
        TagNumber::ContextSpecific(0),
        TagNumber::ContextSpecific(14),
    ];
    for number in numbers {
        for i in 0..BOUNDARY_VALUES.len() {
            let tag = Tag::new(number, BOUNDARY_VALUES[i]);
            let bytes = encode_tag(&tag);
            assert_eq!(bytes.len(), BOUNDARY_LENGTHS[i]);
            assert_eq!(decode_tag(&bytes), Ok((tag, bytes.len())));
        }
    }
    for number in [TagNumber::ContextSpecific(15), TagNumber::ContextSpecific(255)] {
        for i in 0..BOUNDARY_VALUES.len() {
            let tag = Tag::new(number, BOUNDARY_VALUES[i]);
            let bytes = encode_tag(&tag);
            assert_eq!(bytes.len(), BOUNDARY_LENGTHS[i] + 1);
            assert_eq!(decode_tag(&bytes), Ok((tag, bytes.len())));
        }
    }
}

#[test]
fn every_application_tag_round_trips() {
    for code in 0u8..16 {
        let number = TagNumber::Application(ApplicationTagNumber::from_code(code));
        assert_eq!(ApplicationTagNumber::from_code(code).code(), code);
        for value in BOUNDARY_VALUES {
            let tag = Tag::new(number, value);
            let bytes = encode_tag(&tag);
            assert_eq!(decode_tag(&bytes), Ok((tag, bytes.len())));
        }
    }
}

#[test]
fn a_truncated_tag_fails_for_want_of_bytes() {
    let numbers = [
        TagNumber::Application(ApplicationTagNumber::Real),
        TagNumber::ContextSpecific(3),
        TagNumber::ContextSpecific(77),
        TagNumber::ContextSpecificOpening(77),
    ];
    for number in numbers {
        for value in BOUNDARY_VALUES {
            let value = match number {
                TagNumber::ContextSpecificOpening(_) => 0,
                _ => value,
            };
            let bytes = encode_tag(&Tag::new(number, value));
            for cut in 0..bytes.len() {
                assert_eq!(decode_tag(&bytes[..cut]), Err(Error::BufferBounds));
            }
        }
    }
}

#[test]
fn a_longer_spelling_is_read_but_never_written() {
    // the value 3 spelled with a length byte, and with two bytes
    let direct = Tag::new(TagNumber::ContextSpecific(2), 3);
    assert_eq!(decode_tag(&[0x2D, 3]), Ok((direct, 2)));
    assert_eq!(decode_tag(&[0x2D, 254, 0, 3]), Ok((direct, 4)));
    assert_eq!(decode_tag(&[0x2D, 255, 0, 0, 0, 3]), Ok((direct, 6)));
    // the number 2 spelled in a byte of its own
    assert_eq!(decode_tag(&[0xFB, 2]), Ok((direct, 2)));
    assert_eq!(encode_tag(&direct), vec![0x2B]);
}

#[test]
fn an_application_tag_with_the_low_bits_of_a_bracket_has_no_value() {
    assert_eq!(
        decode_tag(&[0x26]),
        Ok((Tag::new(TagNumber::Application(ApplicationTagNumber::UnsignedInt), 0), 1))
    );
    assert_eq!(
        decode_tag(&[0xF7]),
        Ok((Tag::new(TagNumber::Application(ApplicationTagNumber::Reserve3), 0), 1))
    );
}

#[test]
fn a_tag_that_does_not_fit_is_not_written() {
    let mut buf = [0u8; 3];
    let mut writer = Writer::new(&mut buf);
    let tag = Tag::new(TagNumber::ContextSpecific(1), 300);
    assert_eq!(tag.encode(&mut writer), Err(Error::BufferBounds));
    assert_eq!(writer.index, 0);
    let small = Tag::new(TagNumber::ContextSpecific(1), 3);
    assert_eq!(small.encode(&mut writer), Ok(()));
    assert_eq!(writer.to_bytes(), &[0x1B]);
}

#[test]
fn decode_expected_checks_class_and_number() {
    let bytes = [0x1D, 0xFE, 0x01, 0x2C];
    let mut reader = Reader::new_with_len(bytes.len());
    assert_eq!(
        Tag::decode_expected(&mut reader, &bytes, TagNumber::ContextSpecific(1)),
        Ok(Tag::new(TagNumber::ContextSpecific(1), 300))
    );
    let mut reader = Reader::new_with_len(bytes.len());
    assert_eq!(
        Tag::decode_expected(&mut reader, &bytes, TagNumber::ContextSpecific(2)),
        Err(Error::UnexpectedTag)
    );
    let mut reader = Reader::new_with_len(bytes.len());
    assert_eq!(
        Tag::decode_expected(&mut reader, &bytes, TagNumber::ContextSpecificOpening(1)),
        Err(Error::UnexpectedTag)
    );
    let tag = Tag::new(TagNumber::Application(ApplicationTagNumber::Date), 4);
    assert_eq!(tag.expect_number(TagNumber::Application(ApplicationTagNumber::Date)), Ok(()));
    assert_eq!(
        tag.expect_number(TagNumber::Application(ApplicationTagNumber::Time)),
        Err(Error::UnexpectedTag)
    );
}

#[test]
fn the_first_byte_is_taken_apart_by_its_bits() {
    assert!(is_context_specific(0x08));
    assert!(!is_context_specific(0xF7));
    assert!(is_extended_tag_number(0xF0));
    assert!(!is_extended_tag_number(0xE0));
    assert!(is_extended_value(0x05));
    assert!(!is_extended_value(0x04));
    assert!(is_opening_tag(0x0E));
    assert!(!is_opening_tag(0x0F));
    assert!(is_closing_tag(0x0F));
    assert!(!is_closing_tag(0x0E));
    let bytes = [0xF9, 33];
    let mut reader = Reader::new_with_len(bytes.len());
    assert_eq!(decode_tag_number(&mut reader, &bytes), Ok((TagNumber::ContextSpecific(33), 0xF9)));
    assert_eq!(reader.index, 2);
}
