use bacnet_codec::common::error::Error;
use bacnet_codec::common::helper::{
    decode_context_object_id, decode_context_property_id, decode_context_unsigned, decode_signed,
    decode_unsigned, encode_application_signed, encode_application_unsigned, encode_closing_tag,
    encode_context_enumerated, encode_context_object_id, encode_context_unsigned,
    encode_opening_tag, encode_signed, encode_unsigned, get_tagged_body_for_tag, signed_len,
    unsigned_len, BACNET_ARRAY_ALL,
};
use bacnet_codec::common::io::{Reader, Writer};
use bacnet_codec::common::object_id::ObjectId;
use bacnet_codec::common::property_id::PropertyId;

fn written(encode: impl FnOnce(&mut Writer) -> Result<(), Error>) -> Vec<u8> {
    let mut buf = [0u8; 32];
    let mut writer = Writer::new(&mut buf);
    encode(&mut writer).unwrap();
    writer.to_bytes().to_vec()
}

#[test]
fn unsigned_numbers_take_their_shortest_form() {
    assert_eq!(written(|w| encode_unsigned(w, 0)), vec![0]);
    assert_eq!(written(|w| encode_unsigned(w, 255)), vec![255]);
    assert_eq!(written(|w| encode_unsigned(w, 256)), vec![1, 0]);
    assert_eq!(written(|w| encode_unsigned(w, 65535)), vec![0xFF, 0xFF]);
    assert_eq!(written(|w| encode_unsigned(w, 65536)), vec![1, 0, 0]);
    assert_eq!(written(|w| encode_unsigned(w, 0xFF_FFFF)), vec![0xFF, 0xFF, 0xFF]);
    assert_eq!(written(|w| encode_unsigned(w, 0x100_0000)), vec![1, 0, 0, 0]);
    assert_eq!(written(|w| encode_unsigned(w, u32::MAX)), vec![0xFF, 0xFF, 0xFF, 0xFF]);
    assert_eq!(unsigned_len(255), 1);
    assert_eq!(unsigned_len(256), 2);
    assert_eq!(unsigned_len(65536), 3);
    assert_eq!(unsigned_len(0x100_0000), 4);
}

#[test]
fn signed_numbers_take_their_shortest_form() {
    assert_eq!(written(|w| encode_signed(w, 0)), vec![0]);
    assert_eq!(written(|w| encode_signed(w, 127)), vec![0x7F]);
    assert_eq!(written(|w| encode_signed(w, 128)), vec![0x00, 0x80]);
    assert_eq!(written(|w| encode_signed(w, -1)), vec![0xFF]);
    assert_eq!(written(|w| encode_signed(w, -128)), vec![0x80]);
    assert_eq!(written(|w| encode_signed(w, -129)), vec![0xFF, 0x7F]);
    assert_eq!(written(|w| encode_signed(w, 32767)), vec![0x7F, 0xFF]);
    assert_eq!(written(|w| encode_signed(w, 32768)), vec![0x00, 0x80, 0x00]);
    assert_eq!(written(|w| encode_signed(w, -32769)), vec![0xFF, 0x7F, 0xFF]);
    assert_eq!(written(|w| encode_signed(w, 8388608)), vec![0x00, 0x80, 0x00, 0x00]);
    assert_eq!(written(|w| encode_signed(w, i32::MAX)), vec![0x7F, 0xFF, 0xFF, 0xFF]);
    assert_eq!(written(|w| encode_signed(w, i32::MIN)), vec![0x80, 0x00, 0x00, 0x00]);
    assert_eq!(signed_len(-128), 1);
    assert_eq!(signed_len(-129), 2);
    assert_eq!(signed_len(-8388609), 4);
}

#[test]
fn unsigned_numbers_round_trip() {
    for value in [0u32, 1, 255, 256, 65535, 65536, 0xFF_FFFF, 0x100_0000, 0x1234_5678, u32::MAX] {
        let bytes = written(|w| encode_unsigned(w, value));
        let mut reader = Reader::new_with_len(bytes.len());
        assert_eq!(decode_unsigned(bytes.len() as u32, &mut reader, &bytes), Ok(value));
        assert_eq!(reader.index, bytes.len());
    }
}

#[test]
fn signed_numbers_round_trip() {
    for value in [
        0i32, 1, -1, 127, 128, -128, -129, 32767, 32768, -32768, -32769, 8388607, 8388608,
        -8388608, -8388609, i32::MAX, i32::MIN,
    ] {
        let bytes = written(|w| encode_signed(w, value));
        let mut reader = Reader::new_with_len(bytes.len());
        assert_eq!(decode_signed(bytes.len() as u32, &mut reader, &bytes), Ok(value));
        assert_eq!(reader.index, bytes.len());
    }
}

#[test]
fn a_number_of_no_bytes_or_of_more_than_four_is_refused() {
    let bytes = [1u8, 2, 3, 4, 5, 6, 7, 8];
    for len in [0u32, 5, 8, 300] {
        let mut reader = Reader::new_with_len(bytes.len());
        assert_eq!(decode_unsigned(len, &mut reader, &bytes), Err(Error::InvalidValue));
        assert_eq!(decode_signed(len, &mut reader, &bytes), Err(Error::InvalidValue));
        assert_eq!(reader.index, 0);
    }
    let mut reader = Reader::new_with_len(2);
    assert_eq!(decode_unsigned(3, &mut reader, &bytes), Err(Error::BufferBounds));
}

#[test]
fn a_three_byte_number_is_read_with_its_sign() {
    let bytes = [0xFF, 0x7F, 0xFF];
    let mut reader = Reader::new_with_len(3);
    assert_eq!(decode_unsigned(3, &mut reader, &bytes), Ok(0xFF7FFF));
    let mut reader = Reader::new_with_len(3);
    assert_eq!(decode_signed(3, &mut reader, &bytes), Ok(-32769));
}

#[test]
fn tagged_numbers_have_their_bytes() {
    assert_eq!(written(|w| encode_context_unsigned(w, 1, 77)), vec![0x19, 77]);
    assert_eq!(written(|w| encode_context_unsigned(w, 2, 1000)), vec![0x2A, 0x03, 0xE8]);
    assert_eq!(
        written(|w| encode_context_enumerated(w, 1, &PropertyId(131))),
        vec![0x19, 131]
    );
    assert_eq!(written(|w| encode_application_unsigned(w, 1)), vec![0x21, 1]);
    assert_eq!(written(|w| encode_application_unsigned(w, 70000)), vec![0x23, 0x01, 0x11, 0x70]);
    assert_eq!(written(|w| encode_application_signed(w, 10)), vec![0x31, 10]);
    assert_eq!(written(|w| encode_application_signed(w, -300)), vec![0x32, 0xFE, 0xD4]);
    assert_eq!(written(|w| encode_opening_tag(w, 3)), vec![0x3E]);
    assert_eq!(written(|w| encode_closing_tag(w, 3)), vec![0x3F]);
    assert_eq!(BACNET_ARRAY_ALL, 0xFFFF_FFFF);
}

#[test]
fn an_object_id_packs_type_and_instance() {
    let device = ObjectId::new(8, 20088);
    assert_eq!(
        written(|w| encode_context_object_id(w, 0, &device)),
        vec![0x0C, 0x02, 0x00, 0x4E, 0x78]
    );
    let bytes = [0x0C, 0x02, 0x00, 0x4E, 0x78];
    let mut reader = Reader::new_with_len(bytes.len());
    assert_eq!(decode_context_object_id(&mut reader, &bytes, 0), Ok(device));
    let largest = ObjectId::new(1023, 4194303);
    assert_eq!(written(|w| largest.encode(w)), vec![0xFF, 0xFF, 0xFF, 0xFF]);
    let mut reader = Reader::new_with_len(4);
    assert_eq!(ObjectId::decode(4, &mut reader, &[0xFF, 0xFF, 0xFF, 0xFF]), Ok(largest));
}

#[test]
fn an_object_id_drops_the_bits_that_do_not_fit() {
    let too_large = ObjectId::new(1024 + 3, 4194304 + 5);
    assert_eq!(written(|w| too_large.encode(w)), written(|w| ObjectId::new(3, 5).encode(w)));
}

#[test]
fn an_object_id_of_another_length_is_refused() {
    let bytes = [0x0B, 0x02, 0x00, 0x4E, 0x78];
    let mut reader = Reader::new_with_len(bytes.len());
    assert_eq!(decode_context_object_id(&mut reader, &bytes, 0), Err(Error::InvalidValue));
    let mut reader = Reader::new_with_len(bytes.len());
    assert_eq!(decode_context_object_id(&mut reader, &bytes, 1), Err(Error::UnexpectedTag));
}

#[test]
fn tagged_numbers_are_read_back() {
    let bytes = [0x2A, 0x03, 0xE8, 0x19, 85];
    let mut reader = Reader::new_with_len(bytes.len());
    assert_eq!(decode_context_unsigned(&mut reader, &bytes, 2), Ok(1000));
    assert_eq!(decode_context_property_id(&mut reader, &bytes, 1), Ok(PropertyId(85)));
    assert!(reader.eof());
    let mut reader = Reader::new_with_len(bytes.len());
    assert_eq!(decode_context_unsigned(&mut reader, &bytes, 3), Err(Error::UnexpectedTag));
}

#[test]
fn the_body_of_a_bracket_is_found() {
    // bracket 5 round two tagged values and a nested bracket 0
    let bytes = [0x5E, 0x09, 0x07, 0x0E, 0x21, 0x05, 0x0F, 0x5F, 0xAA];
    let mut reader = Reader::new_with_len(bytes.len());
    assert_eq!(get_tagged_body_for_tag(&mut reader, &bytes, 5), Ok(&bytes[1..7]));
    assert_eq!(reader.index, 8);
}

#[test]
fn a_bracket_of_the_same_number_inside_is_part_of_the_body() {
    let bytes = [0x5E, 0x5E, 0x09, 0x07, 0x5F, 0x5F];
    let mut reader = Reader::new_with_len(bytes.len());
    assert_eq!(get_tagged_body_for_tag(&mut reader, &bytes, 5), Ok(&bytes[1..5]));
    assert_eq!(reader.index, 6);
}

#[test]
fn a_byte_that_looks_like_the_closing_tag_inside_a_value_is_stepped_over() {
    let bytes = [0x5E, 0x0A, 0x5F, 0x5F, 0x5F];
    let mut reader = Reader::new_with_len(bytes.len());
    assert_eq!(get_tagged_body_for_tag(&mut reader, &bytes, 5), Ok(&bytes[1..4]));
    assert_eq!(reader.index, 5);
}

#[test]
fn an_empty_bracket_has_an_empty_body() {
    let bytes = [0x5E, 0x5F];
    let mut reader = Reader::new_with_len(bytes.len());
    assert_eq!(get_tagged_body_for_tag(&mut reader, &bytes, 5), Ok(&[] as &[u8]));
    assert_eq!(reader.index, 2);
}

#[test]
fn a_bracket_that_is_not_closed_fails_for_want_of_bytes() {
    let bytes = [0x5E, 0x09, 0x07, 0x5E, 0x5F];
    let mut reader = Reader::new_with_len(bytes.len());
    assert_eq!(get_tagged_body_for_tag(&mut reader, &bytes, 5), Err(Error::BufferBounds));
    let bytes = [0x5E, 0x0C, 0x01, 0x02, 0x5F];
    let mut reader = Reader::new_with_len(bytes.len());
    assert_eq!(get_tagged_body_for_tag(&mut reader, &bytes, 5), Err(Error::BufferBounds));
    let bytes = [0x4E, 0x4F];
    let mut reader = Reader::new_with_len(bytes.len());
    assert_eq!(get_tagged_body_for_tag(&mut reader, &bytes, 5), Err(Error::UnexpectedTag));
}

#[test]
fn a_boolean_has_no_bytes_to_step_over() {
    // application tag 1 with the value 1: a boolean, whose value is in the tag
    let bytes = [0x5E, 0x11, 0x5F];
    let mut reader = Reader::new_with_len(bytes.len());
    assert_eq!(get_tagged_body_for_tag(&mut reader, &bytes, 5), Ok(&bytes[1..2]));
}
