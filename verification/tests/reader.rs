use binary_util::error::BinaryError;
use binary_util::io::{ByteReader, ByteWriter};

// Read bytes exactly to size.

const EXAMPLE_PACKET: &[u8] = &[
    // Packet ID
    2, // Some random short
    0, 0, // Some random int
    0, 0, 0, 0,  // The size of the payload below, (10 bytes)
    10, // The payload
    1, 2, 3, 4, 5, 6, 7, 8, 9, 10, // nothing else, (false)
    0,
];

#[test]
fn buffer_read_from_slice() {
    let mut reader = ByteReader::new(EXAMPLE_PACKET.to_vec());
    let packet_id = reader.read_u8().unwrap();
    assert_eq!(packet_id, 2);
    let some_short = reader.read_u16().unwrap();
    assert_eq!(some_short, 0);
    let some_int = reader.read_u32().unwrap();
    assert_eq!(some_int, 0);
    let payload_size = reader.read_u8().unwrap();
    assert_eq!(payload_size, 10);
    let payload = reader.read_exact(payload_size as usize).unwrap();
    assert_eq!(&payload[..], &[1, 2, 3, 4, 5, 6, 7, 8, 9, 10]);
    let nothing_else = reader.read_bool().unwrap();
    assert_eq!(nothing_else, false);
}

// A slice of bytes that is used to test the reader.
// this specific slice is encoded as the following:
// - a string with the contents of: "BinaryUtils"
// - a var_u32 with the value of: 2147483647
// - a optional u16 with the value of 34
const SIMPLE_TEST: &[u8] = &[
    0x0B, 0x42, 0x69, 0x6E, 0x61, 0x72, 0x79, 0x55, 0x74, 0x69, 0x6C, 0x73, // String
    0xFF, 0xFF, 0xFF, 0xFF, 0x07, // VarInt
    0x01, 0x00, 0x22, // Option<u16>
];

#[test]
fn read_simple_test() {
    let mut buf = ByteReader::new(SIMPLE_TEST.to_vec());
    assert_eq!(buf.read_string().unwrap(), "BinaryUtils");
    assert_eq!(buf.read_var_u32().unwrap(), 2147483647);
    assert_eq!(buf.read_bool().unwrap(), true);
    assert_eq!(buf.read_u16().unwrap(), 34);
}

#[test]
fn truncated_fixed_reads_leave_cursor() {
    let mut buf = ByteReader::new(vec![1]);
    assert_eq!(buf.read_u16(), Err(BinaryError::UnexpectedEof));
    assert_eq!(buf.position(), 0);
    assert_eq!(buf.read_u32(), Err(BinaryError::UnexpectedEof));
    assert_eq!(buf.read_u64(), Err(BinaryError::UnexpectedEof));
    assert_eq!(buf.read_u128(), Err(BinaryError::UnexpectedEof));
    assert_eq!(buf.read_i16_le(), Err(BinaryError::UnexpectedEof));
    assert_eq!(buf.read_u24(), Err(BinaryError::UnexpectedEof));
    assert_eq!(buf.position(), 0);
    // the one byte is still there
    assert_eq!(buf.read_u8().unwrap(), 1);
}

#[test]
fn truncated_string_leaves_cursor() {
    // length prefix says five bytes, only two follow
    let mut buf = ByteReader::new(vec![5, 104, 105]);
    assert_eq!(buf.read_string(), Err(BinaryError::UnexpectedEof));
    assert_eq!(buf.position(), 0);
}

#[test]
fn fixed_width_round_trips() {
    let mut w = ByteWriter::new();
    w.write_u16(0xBEEF).unwrap();
    w.write_u16_le(0xBEEF).unwrap();
    w.write_i16(-2).unwrap();
    w.write_i32_le(-70000).unwrap();
    w.write_u64(0x0102030405060708).unwrap();
    w.write_i64(-1).unwrap();
    w.write_u128_le(u128::MAX - 7).unwrap();
    w.write_i128(i128::MIN).unwrap();
    w.write_i24(-8388608).unwrap();
    w.write_u24_le(10000).unwrap();
    w.write_bool(true).unwrap();
    let mut r = ByteReader::new(w.into_vec());
    assert_eq!(r.read_u16().unwrap(), 0xBEEF);
    assert_eq!(r.read_u16_le().unwrap(), 0xBEEF);
    assert_eq!(r.read_i16().unwrap(), -2);
    assert_eq!(r.read_i32_le().unwrap(), -70000);
    assert_eq!(r.read_u64().unwrap(), 0x0102030405060708);
    assert_eq!(r.read_i64().unwrap(), -1);
    assert_eq!(r.read_u128_le().unwrap(), u128::MAX - 7);
    assert_eq!(r.read_i128().unwrap(), i128::MIN);
    assert_eq!(r.read_i24().unwrap(), -8388608);
    assert_eq!(r.read_u24_le().unwrap(), 10000);
    assert_eq!(r.read_bool().unwrap(), true);
    assert_eq!(r.remaining(), 0);
}

#[test]
fn char_round_trip_and_rejection() {
    let mut w = ByteWriter::new();
    w.write_char('A').unwrap();
    w.write_char('\u{1F600}').unwrap();
    let mut r = ByteReader::new(w.into_vec());
    assert_eq!(r.read_char().unwrap(), 'A');
    assert_eq!(r.read_char().unwrap(), '\u{1F600}');

    // a surrogate code point is no Unicode scalar value
    let mut r = ByteReader::new(vec![0, 0, 0xD8, 0]);
    assert_eq!(r.read_char(), Err(BinaryError::InvalidData));
    assert_eq!(r.position(), 0);
}

#[test]
fn sized_slice_round_trip() {
    let mut w = ByteWriter::new();
    w.write_slice(&[9, 8, 7]).unwrap();
    let mut r = ByteReader::new(w.into_vec());
    assert_eq!(r.read_sized_slice().unwrap(), vec![9, 8, 7]);
}

#[test]
fn peek_does_not_advance() {
    let mut r = ByteReader::new(vec![10, 20]);
    assert_eq!(r.peek_ahead(0).unwrap(), 10);
    assert_eq!(r.peek_ahead(1).unwrap(), 20);
    assert!(r.peek_ahead(2).is_err());
    assert_eq!(r.position(), 0);
    assert_eq!(r.read_u8().unwrap(), 10);
}

#[test]
fn error_messages_exist() {
    assert!(BinaryError::UnexpectedEof.get_message().len() > 0);
    assert!(BinaryError::OutOfMemory.get_message().len() > 0);
    assert!(BinaryError::InvalidData.get_message().len() > 0);
}
