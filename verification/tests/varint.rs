use binary_util::error::BinaryError;
use binary_util::io::{ByteReader, ByteWriter};
use binary_util::interfaces::Streamable;
use binary_util::types::{u24, varu32, varu64};

pub const FIVE_BYTE_VARINT: &[u8] = &[255, 255, 255, 255, 7]; // 2147483647
pub const THREE_BYTE_VARINT: &[u8] = &[255, 255, 127]; // 2097151
pub const TWO_BYTE_VARINT: &[u8] = &[255, 1]; // 255
pub const ONE_BYTE_VARINT: &[u8] = &[127]; // 127

#[test]
fn varint_read_var_u32() {
    let mut buf = ByteReader::new(FIVE_BYTE_VARINT.to_vec());
    assert_eq!(buf.read_var_u32().unwrap(), 2147483647);
    let mut buf = ByteReader::new(THREE_BYTE_VARINT.to_vec());
    assert_eq!(buf.read_var_u32().unwrap(), 2097151);
    let mut buf = ByteReader::new(TWO_BYTE_VARINT.to_vec());
    assert_eq!(buf.read_var_u32().unwrap(), 255);
    let mut buf = ByteReader::new(ONE_BYTE_VARINT.to_vec());
    assert_eq!(buf.read_var_u32().unwrap(), 127);
}

pub const NEGATIVE_VARINT: &[u8] = &[253, 255, 255, 255, 15]; // -2147483647

#[test]
fn varint_read_var_i32() {
    let mut buf = ByteReader::new(NEGATIVE_VARINT.to_vec());
    assert_eq!(buf.read_var_i32().unwrap(), -2147483647);
    // -12
    let mut buf = ByteReader::new([23].to_vec());
    assert_eq!(buf.read_var_i32().unwrap(), -12);
}

#[test]
fn varint_write_var_u32() {
    let mut buf = ByteWriter::new();
    buf.write_var_u32(2147483647).unwrap();
    assert_eq!(buf.as_slice(), &FIVE_BYTE_VARINT[..]);
    buf.clear();
    buf.write_var_u32(2097151).unwrap();
    assert_eq!(buf.as_slice(), &THREE_BYTE_VARINT[..]);
    buf.clear();
    buf.write_var_u32(255).unwrap();
    assert_eq!(buf.as_slice(), &TWO_BYTE_VARINT[..]);
    buf.clear();
    buf.write_var_u32(127).unwrap();
    assert_eq!(buf.as_slice(), &ONE_BYTE_VARINT[..]);
}

#[test]
fn varint_write_var_i32() {
    let mut buf = ByteWriter::new();
    buf.write_var_i32(-1).unwrap();
    assert_eq!(buf.as_slice(), &[1]);
    buf.clear();
    buf.write_var_i32(-2147483648).unwrap();
    assert_eq!(buf.as_slice(), &[255, 255, 255, 255, 15]);
}

pub const NINE_BYTE_LONG: &[u8] = &[255, 255, 255, 255, 255, 255, 255, 255, 127]; // 9223372036854775807
pub const NEGATIVE_ONE_LONG: &[u8] = &[1]; // -1
pub const NEGATIVE_LONG: &[u8] = &[255, 255, 255, 255, 255, 255, 255, 255, 255, 1]; // -9223372036854775808

#[test]
fn varint_read_var_u64() {
    let mut buf = ByteReader::new(NINE_BYTE_LONG.to_vec());
    assert_eq!(buf.read_var_u64().unwrap(), 9223372036854775807);
}

#[test]
fn varint_read_var_i64() {
    let mut buf = ByteReader::new(NEGATIVE_ONE_LONG.to_vec());
    assert_eq!(buf.read_var_i64().unwrap(), -1);
    let mut buf = ByteReader::new(NEGATIVE_LONG.to_vec());
    assert_eq!(buf.read_var_i64().unwrap(), -9223372036854775808);
}

#[test]
fn varint_write_var_u64() {
    let mut buf = ByteWriter::new();
    buf.write_var_u64(9223372036854775807).unwrap();
    assert_eq!(buf.as_slice(), &NINE_BYTE_LONG[..]);
}

#[test]
fn varint_write_var_i64() {
    let mut buf = ByteWriter::new();
    buf.write_var_i64(-1).unwrap();
    assert_eq!(buf.as_slice(), &NEGATIVE_ONE_LONG[..]);
    buf.clear();
    buf.write_var_i64(-9223372036854775808).unwrap();
    assert_eq!(buf.as_slice(), &NEGATIVE_LONG[..]);
}

#[test]
fn var_int_32_overflow() {
    let mut buf = ByteWriter::new();
    buf.write_var_u32(2147483648).unwrap();
    assert_eq!(buf.as_slice(), &[128, 128, 128, 128, 8]);

    let mut buf = ByteReader::new(buf.as_slice().to_vec());
    assert_eq!(buf.read_var_u32().unwrap(), 2147483648);

    // now into i32
    let mut buf = ByteWriter::new();
    buf.write_var_i32(i32::MIN).unwrap();

    let mut buf = ByteReader::new(buf.as_slice().to_vec());
    assert_eq!(buf.read_var_i32().unwrap(), i32::MIN);

    // validate i32 ::MAX overflow now
    let mut buf = ByteWriter::new();
    buf.write_var_i32(i32::MAX).unwrap();
}

#[test]
fn read_tests() {
    // Varint reading!
    let buffer: Vec<u8> = vec![255, 255, 255, 255, 7, 0, 255, 1, 0, 0];
    let mut cursor = ByteReader::new(buffer);
    let v = cursor.read_var_u32().unwrap();
    assert_eq!(v, 2147483647);
    cursor.read_u8().unwrap();
    let v2 = cursor.read_var_u32().unwrap();
    assert_eq!(v2, 255);
}

#[test]
fn read_write_var_int() {
    let one = varu32(2147483647);
    let two = varu32(255);
    let buf_one = one.parse().unwrap();
    let buf_two = two.parse().unwrap();

    assert_eq!(buf_one, vec![255, 255, 255, 255, 7]);
    assert_eq!(buf_two, vec![255, 1]);

    let buf_long_one = varu64(9223372036854775807).parse().unwrap();
    assert_eq!(
        buf_long_one,
        vec![255, 255, 255, 255, 255, 255, 255, 255, 127]
    );

    assert_eq!(one.0, varu32::compose(&buf_one[..], &mut 0).unwrap().0);

    assert_eq!(two.0, varu32::compose(&buf_two[..], &mut 0).unwrap().0);

    // test reading
    let buf_game_id: Vec<u8> = vec![2, 0, 0, 0, 5];
    let int_game_id = varu32::compose(&buf_game_id[..], &mut 0).unwrap();
    assert_eq!(int_game_id.0, 2);
}

#[test]
fn var_int_test_middle() {
    // false, false, byte, varint (255), varint (1)
    let buffer = vec![0, 0, 0, 255, 1, 0, 0];
    let mut position = 0;

    assert_eq!(u24::compose(&buffer[..], &mut position).unwrap().0, 0);

    assert_eq!(varu32::compose(&buffer[..], &mut position).unwrap().0, 255);
}

#[test]
fn varint_boundary_lengths() {
    let mut buf = ByteWriter::new();
    buf.write_var_u32(127).unwrap();
    assert_eq!(buf.as_slice().len(), 1);
    buf.clear();
    buf.write_var_u32(128).unwrap();
    assert_eq!(buf.as_slice(), &[128, 1]);
    buf.clear();
    buf.write_var_u32(2147483647).unwrap();
    assert_eq!(buf.as_slice(), &[255, 255, 255, 255, 7]);
    buf.clear();
    buf.write_var_u64(9223372036854775807).unwrap();
    assert_eq!(
        buf.as_slice(),
        &[255, 255, 255, 255, 255, 255, 255, 255, 127]
    );
}

#[test]
fn varint_truncated_leaves_cursor() {
    // a continuation bit with nothing after it: the cursor must not move
    let mut buf = ByteReader::new(vec![128]);
    assert!(buf.read_var_u32().is_err());
    assert_eq!(buf.position(), 0);
    assert_eq!(buf.read_u8().unwrap(), 128);
}

#[test]
fn varint_overflow_is_invalid_data() {
    let mut buf = ByteReader::new(vec![128, 128, 128, 128, 128, 128]);
    assert_eq!(buf.read_var_u32(), Err(BinaryError::InvalidData));
    assert_eq!(buf.position(), 0);
}
