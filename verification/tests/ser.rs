use bolt_wire::ser::{DecodeError, FixedLengthReadable, ReadTrackingReader, Readable, Writeable};

#[test]
fn tracking_reader_starts_unread() {
    let bytes = [1u8, 2, 3];
    let reader = ReadTrackingReader::new(&bytes);
    assert!(!reader.have_read);
    assert_eq!(reader.read, &[1u8, 2, 3][..]);
}

#[test]
fn tracking_reader_read_takes_what_is_there() {
    let bytes = [1u8, 2, 3];
    let mut reader = ReadTrackingReader::new(&bytes);
    assert_eq!(reader.read(0), &[][..]);
    assert!(!reader.have_read);
    assert_eq!(reader.read(2), &[1u8, 2][..]);
    assert!(reader.have_read);
    assert_eq!(reader.read(5), &[3u8][..]);
    assert_eq!(reader.read(5), &[][..]);
    assert!(reader.have_read);
}

#[test]
fn tracking_reader_end_of_source_leaves_flag() {
    let bytes: [u8; 0] = [];
    let mut reader = ReadTrackingReader::new(&bytes);
    assert_eq!(reader.read(4), &[][..]);
    assert!(!reader.have_read);
    assert_eq!(reader.read_exact(1), Err(DecodeError::ShortRead));
    assert!(!reader.have_read);
}

#[test]
fn read_exact_zero_is_empty_not_an_error() {
    let bytes: [u8; 0] = [];
    let mut reader = ReadTrackingReader::new(&bytes);
    assert_eq!(reader.read_exact(0), Ok(&[][..]));
    assert!(!reader.have_read);

    let bytes = [7u8];
    let mut reader = ReadTrackingReader::new(&bytes);
    assert_eq!(reader.read_exact(0), Ok(&[][..]));
    assert!(!reader.have_read);
    assert_eq!(reader.read.len(), 1);
}

#[test]
fn read_exact_short_takes_the_rest() {
    let bytes = [1u8, 2, 3];
    let mut reader = ReadTrackingReader::new(&bytes);
    assert_eq!(reader.read_exact(4), Err(DecodeError::ShortRead));
    assert!(reader.have_read);
    assert!(reader.read.is_empty());
}

#[test]
fn fixed_length_bytes() {
    let bytes = [1u8, 2, 3];
    let mut reader = ReadTrackingReader::new(&bytes);
    let empty: Vec<u8> = FixedLengthReadable::read(&mut reader, 0).expect("no failure");
    assert!(empty.is_empty());
    let two: Vec<u8> = FixedLengthReadable::read(&mut reader, 2).expect("no failure");
    assert_eq!(two, vec![1u8, 2]);
    let more: Result<Vec<u8>, DecodeError> = FixedLengthReadable::read(&mut reader, 2);
    assert_eq!(more, Err(DecodeError::ShortRead));
}

#[test]
fn integers_are_big_endian() {
    assert_eq!(0x12u8.encode(), vec![0x12u8]);
    assert_eq!(0x1234u16.encode(), vec![0x12u8, 0x34]);
    assert_eq!(0x12345678u32.encode(), vec![0x12u8, 0x34, 0x56, 0x78]);
    assert_eq!(
        0x0123456789abcdefu64.encode(),
        vec![0x01u8, 0x23, 0x45, 0x67, 0x89, 0xab, 0xcd, 0xef]
    );
    assert_eq!(0u64.encode(), vec![0u8; 8]);
    assert_eq!(u64::MAX.encode(), vec![0xffu8; 8]);

    let bytes = [0x01u8, 0x23, 0x45, 0x67, 0x89, 0xab, 0xcd, 0xef, 0x12, 0x34, 0x56, 0x78, 0x9a, 0xbc, 0xde];
    let mut reader = ReadTrackingReader::new(&bytes);
    assert_eq!(u64::read(&mut reader), Ok(0x0123456789abcdefu64));
    assert_eq!(u32::read(&mut reader), Ok(0x12345678u32));
    assert_eq!(u16::read(&mut reader), Ok(0x9abcu16));
    assert_eq!(u8::read(&mut reader), Ok(0xdeu8));
    assert_eq!(u8::read(&mut reader), Err(DecodeError::ShortRead));
}

#[test]
fn integers_cut_short() {
    let bytes = [0x01u8, 0x23, 0x45];
    let mut reader = ReadTrackingReader::new(&bytes);
    assert_eq!(u32::read(&mut reader), Err(DecodeError::ShortRead));
    assert!(reader.have_read);
    assert!(reader.read.is_empty());

    let mut reader = ReadTrackingReader::new(&bytes[..1]);
    assert_eq!(u16::read(&mut reader), Err(DecodeError::ShortRead));
    let mut reader = ReadTrackingReader::new(&bytes[..0]);
    assert_eq!(u64::read(&mut reader), Err(DecodeError::ShortRead));
    assert!(!reader.have_read);
}

#[test]
fn integers_write_counts_and_hex() {
    let mut out = Vec::new();
    assert_eq!(1u8.write(&mut out), 1);
    assert_eq!(2u16.write(&mut out), 2);
    assert_eq!(3u32.write(&mut out), 4);
    assert_eq!(4u64.write(&mut out), 8);
    assert_eq!(out.len(), 15);

    let mut text = String::new();
    0x0010u16.write_fmt(&mut text);
    0xabu8.write_fmt(&mut text);
    assert_eq!(text, "0010ab");
}

#[test]
fn decode_error_text() {
    assert_eq!(DecodeError::ShortRead.to_string(), "short read");
    assert_eq!(DecodeError::InvalidData.to_string(), "invalid data");
    assert_eq!(DecodeError::UnknownRequiredFeature.to_string(), "unknown required feature");
}
