use qoi::{ByteSource, DecodeError};

#[test]
fn bytes_come_out_in_order() {
    let bytes = [7u8, 0, 255];
    let mut src = ByteSource::new(&bytes);
    assert_eq!(src.read_u8(), Ok(7));
    assert_eq!(src.position(), 1);
    assert_eq!(src.read_u8(), Ok(0));
    assert_eq!(src.read_u8(), Ok(255));
    assert_eq!(src.position(), 3);
}

#[test]
fn reading_past_the_end_is_truncation() {
    let bytes = [7u8];
    let mut src = ByteSource::new(&bytes);
    assert_eq!(src.read_u8(), Ok(7));
    assert_eq!(src.read_u8(), Err(DecodeError::Truncation));
    assert_eq!(src.read_u8(), Err(DecodeError::Truncation));
    assert_eq!(src.position(), 1);
    let mut empty = ByteSource::new(&[]);
    assert_eq!(empty.read_u8(), Err(DecodeError::Truncation));
    assert_eq!(empty.position(), 0);
}

#[test]
fn four_bytes_make_a_big_endian_number() {
    let bytes = [0x12u8, 0x34, 0x56, 0x78, 0x9a];
    let mut src = ByteSource::new(&bytes);
    assert_eq!(src.read_u32(), Ok(0x1234_5678));
    assert_eq!(src.position(), 4);
    assert_eq!(src.read_u8(), Ok(0x9a));
}

#[test]
fn big_endian_number_starts_at_the_cursor() {
    let bytes = [0xeeu8, 0x00, 0x00, 0x01, 0x00, 0xff, 0xff, 0xff, 0xff];
    let mut src = ByteSource::new(&bytes);
    assert_eq!(src.read_u8(), Ok(0xee));
    assert_eq!(src.read_u32(), Ok(256));
    assert_eq!(src.read_u32(), Ok(u32::MAX));
    assert_eq!(src.position(), 9);
}

#[test]
fn short_number_is_truncation_and_reads_nothing() {
    let bytes = [1u8, 2, 3];
    let mut src = ByteSource::new(&bytes);
    assert_eq!(src.read_u32(), Err(DecodeError::Truncation));
    assert_eq!(src.position(), 0);
    assert_eq!(src.read_u8(), Ok(1));
    assert_eq!(src.read_u32(), Err(DecodeError::Truncation));
    assert_eq!(src.position(), 1);
}

#[test]
fn copies_of_a_source_read_independently() {
    let bytes = [5u8, 6];
    let mut first = ByteSource::new(&bytes);
    assert_eq!(first.read_u8(), Ok(5));
    let mut second = first;
    assert_eq!(second.read_u8(), Ok(6));
    assert_eq!(first.position(), 1);
    assert_eq!(second.position(), 2);
}
