use binary_util::error::BinaryError;
use binary_util::interfaces::{Streamable, Writer};
use binary_util::io::{ByteReader, ByteWriter};

#[test]
fn write_string() {
    let string = String::from("Hello world!");
    let hello_world_vec = vec![12, 72, 101, 108, 108, 111, 32, 119, 111, 114, 108, 100, 33];
    assert_eq!(hello_world_vec, string.parse().unwrap());
}

#[test]
fn read_string() {
    let hello_world_vec = vec![12, 72, 101, 108, 108, 111, 32, 119, 111, 114, 108, 100, 33];
    let string = String::compose(&hello_world_vec[..], &mut 0).unwrap();
    assert_eq!("Hello world!".to_string(), string);
}

pub const HW_TEST_DATA: &[u8] = &[
    // Length of the string in Little Endian Format
    12, 0, 0, 0, // Contents of string
    72, 101, 108, 108, 111, 32, 87, 111, 114, 108, 100, 33,
];

#[test]
fn write_l32string() {
    let hello_world = "Hello World!".to_string();
    let mut w = ByteWriter::new();
    w.write_u32_le(hello_world.len() as u32).unwrap();
    w.write(hello_world.as_bytes()).unwrap();
    let data = w.into_vec();

    assert_eq!(HW_TEST_DATA, &data[..]);
}

#[test]
fn read_l32string() {
    let hello_world = "Hello World!".to_string();
    let mut r = ByteReader::new(HW_TEST_DATA.to_vec());
    let len = r.read_u32_le().unwrap();
    let bytes = r.read_exact(len as usize).unwrap();
    let data = String::from_utf8(bytes).unwrap();
    assert_eq!(data, hello_world);
}

#[test]
fn read_twice() {
    let hello_world = "Hello World!".to_string();
    let mut w = ByteWriter::new();
    hello_world.write(&mut w).unwrap();
    hello_world.write(&mut w).unwrap();
    // ok read it.
    let stream = w.into_vec();
    let mut pos: usize = 0;
    let one = String::compose(&stream[..], &mut pos).unwrap();
    let two = String::compose(&stream[..], &mut pos).unwrap();

    assert_eq!(one, two);
}

#[test]
fn string_round_trip_multibyte() {
    let s = String::from("déjà vu \u{1F600}");
    let bytes = s.parse().unwrap();
    let back = String::compose(&bytes[..], &mut 0).unwrap();
    assert_eq!(s, back);
}

#[test]
fn malformed_utf8_is_invalid_data() {
    // a length prefix of two, then a lone continuation byte pair that is no
    // valid UTF-8
    let mut r = ByteReader::new(vec![2, 0xFF, 0xFE]);
    assert_eq!(r.read_string(), Err(BinaryError::InvalidData));
    assert_eq!(r.position(), 0);
}

#[test]
fn string_length_prefix_is_varint_u32() {
    // the length prefix is a varint-u32: after five bytes with the
    // continuation bit still set, the read fails rather than keep going
    let mut r = ByteReader::new(vec![128, 128, 128, 128, 128, 0]);
    assert_eq!(r.read_string(), Err(BinaryError::InvalidData));
    assert_eq!(r.position(), 0);

    // a five-byte prefix whose final group is clear still decodes
    let mut w = ByteWriter::new();
    w.write_var_u32(3).unwrap();
    w.write("abc".as_bytes()).unwrap();
    let mut r = ByteReader::new(w.into_vec());
    assert_eq!(r.read_string(), Ok(String::from("abc")));
}
