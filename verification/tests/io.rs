use bacnet_codec::common::error::Error;
use bacnet_codec::common::io::{Reader, Writer};

#[test]
fn writer_starts_empty() {
    let mut buf = [0u8; 4];
    let writer = Writer::new(&mut buf);
    assert_eq!(writer.index, 0);
    assert_eq!(writer.to_bytes(), &[] as &[u8]);
}

#[test]
fn writer_push_appends_until_full() {
    let mut buf = [0u8; 2];
    let mut writer = Writer::new(&mut buf);
    assert_eq!(writer.push(7), Ok(()));
    assert_eq!(writer.push(9), Ok(()));
    assert_eq!(writer.to_bytes(), &[7, 9]);
    assert_eq!(writer.push(1), Err(Error::BufferBounds));
    assert_eq!(writer.index, 2);
    assert_eq!(writer.to_bytes(), &[7, 9]);
}

#[test]
fn writer_extend_is_all_or_nothing() {
    let mut buf = [0u8; 4];
    let mut writer = Writer::new(&mut buf);
    assert_eq!(writer.extend_from_slice(&[1, 2, 3]), Ok(()));
    assert_eq!(writer.extend_from_slice(&[4, 5]), Err(Error::BufferBounds));
    assert_eq!(writer.to_bytes(), &[1, 2, 3]);
    assert_eq!(writer.extend_from_slice(&[4]), Ok(()));
    assert_eq!(writer.extend_from_slice(&[]), Ok(()));
    assert_eq!(writer.to_bytes(), &[1, 2, 3, 4]);
}

#[test]
fn written_bytes_are_found_in_the_buffer_afterwards() {
    let mut buf = [0xEEu8; 4];
    {
        let mut writer = Writer::new(&mut buf);
        writer.push(1).unwrap();
        writer.extend_from_slice(&[2, 3]).unwrap();
    }
    assert_eq!(buf, [1, 2, 3, 0xEE]);
}

#[test]
fn reader_reads_bytes_in_order() {
    let buf = [10u8, 20, 30, 40, 50, 60, 70];
    let mut reader = Reader::new_with_len(buf.len());
    assert_eq!(reader.read_byte(&buf), Ok(10));
    assert_eq!(reader.read_bytes::<2>(&buf), Ok([20, 30]));
    assert_eq!(reader.read_slice(3, &buf), Ok(&buf[3..6]));
    assert_eq!(reader.index, 6);
    assert!(!reader.eof());
    assert_eq!(reader.read_byte(&buf), Ok(70));
    assert!(reader.eof());
    assert!(reader.eof_in(&buf));
}

#[test]
fn reader_fails_at_the_end_and_stays_where_it_was() {
    let buf = [1u8, 2, 3];
    let mut reader = Reader::new_with_len(buf.len());
    assert_eq!(reader.read_bytes::<4>(&buf), Err(Error::BufferBounds));
    assert_eq!(reader.read_slice(4, &buf), Err(Error::BufferBounds));
    assert_eq!(reader.index, 0);
    assert_eq!(reader.read_bytes::<3>(&buf), Ok([1, 2, 3]));
    assert_eq!(reader.read_byte(&buf), Err(Error::BufferBounds));
    assert_eq!(reader.read_bytes::<0>(&buf), Ok([]));
    assert_eq!(reader.index, 3);
}

#[test]
fn reader_does_not_read_past_its_end() {
    let buf = [1u8, 2, 3, 4];
    let mut reader = Reader::new_with_len(4);
    reader.set_len(2);
    assert_eq!(reader.read_byte(&buf), Ok(1));
    assert_eq!(reader.read_bytes::<2>(&buf), Err(Error::BufferBounds));
    assert_eq!(reader.read_byte(&buf), Ok(2));
    assert_eq!(reader.read_byte(&buf), Err(Error::BufferBounds));
    assert!(reader.eof());
}

#[test]
fn reader_does_not_read_past_the_buffer() {
    let buf = [1u8, 2];
    let mut reader = Reader::default();
    assert_eq!(reader.index, 0);
    assert_eq!(reader.end, usize::MAX - 1000);
    assert_eq!(reader.read_bytes::<2>(&buf), Ok([1, 2]));
    assert!(!reader.eof());
    assert!(reader.eof_in(&buf));
    assert_eq!(reader.read_byte(&buf), Err(Error::BufferBounds));
    assert_eq!(reader.read_slice(usize::MAX, &buf), Err(Error::BufferBounds));
}

#[test]
fn reader_with_a_position_behind_its_end_reads_nothing() {
    let buf = [1u8, 2, 3];
    let mut reader = Reader { index: 2, end: 1 };
    assert!(reader.eof());
    assert_eq!(reader.read_byte(&buf), Err(Error::BufferBounds));
    assert_eq!(reader.read_bytes::<0>(&buf), Err(Error::BufferBounds));
}
