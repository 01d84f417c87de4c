use binary_util::interfaces::{Reader, Streamable};
use binary_util::io::ByteReader;
use binary_util::types::{i24, u24, BE, LE};

// Options carry a presence byte, then the payload's wire form.

#[test]
fn option_round_trip() {
    let present: Option<u16> = Some(0x1234);
    let bytes = present.parse().unwrap();
    assert_eq!(bytes, vec![1, 0x12, 0x34]);
    let mut pos: usize = 0;
    let restored = Option::<u16>::compose(&bytes[..], &mut pos).unwrap();
    assert_eq!(restored, Some(0x1234));
    assert_eq!(pos, 3);

    let absent: Option<u16> = None;
    let bytes = absent.parse().unwrap();
    assert_eq!(bytes, vec![0]);
    let mut pos: usize = 0;
    let restored = Option::<u16>::compose(&bytes[..], &mut pos).unwrap();
    assert_eq!(restored, None);
    assert_eq!(pos, 1);
}

// Vectors carry a varint element count, then each element's wire form.

#[test]
fn vec_round_trip() {
    let values: Vec<u16> = vec![0x0102, 0x0304, 0x0506];
    let bytes = values.parse().unwrap();
    assert_eq!(bytes, vec![3, 1, 2, 3, 4, 5, 6]);
    let mut pos: usize = 0;
    let restored = Vec::<u16>::compose(&bytes[..], &mut pos).unwrap();
    assert_eq!(restored, values);
    assert_eq!(pos, bytes.len());

    let empty: Vec<u8> = Vec::new();
    assert_eq!(empty.parse().unwrap(), vec![0]);
}

#[test]
fn vec_of_option_round_trip() {
    let values: Vec<Option<u8>> = vec![Some(7), None, Some(9)];
    let bytes = values.parse().unwrap();
    assert_eq!(bytes, vec![3, 1, 7, 0, 1, 9]);
    let mut pos: usize = 0;
    let restored = Vec::<Option<u8>>::compose(&bytes[..], &mut pos).unwrap();
    assert_eq!(restored, values);
}

#[test]
fn vec_truncated_fails() {
    // A count of two, but only one element follows.
    let bytes = vec![2u8, 5];
    let mut pos: usize = 0;
    assert!(Vec::<u8>::compose(&bytes[..], &mut pos).is_err());
    assert_eq!(pos, 0);
}

// The signed and wide fixed-width leaf codecs, big-endian by default.

#[test]
fn signed_leaf_round_trips() {
    let v: i16 = -2;
    let bytes = v.parse().unwrap();
    assert_eq!(bytes, vec![0xFF, 0xFE]);
    assert_eq!(i16::compose(&bytes[..], &mut 0).unwrap(), -2);

    let v: i32 = -1;
    assert_eq!(v.parse().unwrap(), vec![0xFF; 4]);
    assert_eq!(i32::compose(&[0xFF; 4][..], &mut 0).unwrap(), -1);

    let v: u128 = 1;
    let bytes = v.parse().unwrap();
    assert_eq!(bytes.len(), 16);
    assert_eq!(bytes[15], 1);
    assert_eq!(u128::compose(&bytes[..], &mut 0).unwrap(), 1);

    let v: i128 = -1;
    assert_eq!(v.parse().unwrap(), vec![0xFF; 16]);
    assert_eq!(i128::compose(&[0xFF; 16][..], &mut 0).unwrap(), -1);
}

#[test]
fn char_streams_as_code_point() {
    let bytes = 'A'.parse().unwrap();
    assert_eq!(bytes, vec![0, 0, 0, 65]);
    assert_eq!(char::compose(&bytes[..], &mut 0).unwrap(), 'A');

    // 0xD800 is a surrogate, not a Unicode scalar value.
    let mut pos: usize = 0;
    assert!(char::compose(&[0, 0, 0xD8, 0][..], &mut pos).is_err());
    assert_eq!(pos, 0);
}

// The endianness-tagged signed and 24-bit wrapped forms.

#[test]
fn wrapped_endian_forms() {
    assert_eq!(LE(-2i16).parse().unwrap(), vec![0xFE, 0xFF]);
    assert_eq!(BE(-2i16).parse().unwrap(), vec![0xFF, 0xFE]);
    assert_eq!(
        LE::<i16>::compose(&[0xFE, 0xFF][..], &mut 0).unwrap(),
        LE(-2i16)
    );
    assert_eq!(
        BE::<i64>::compose(&[0xFF; 8][..], &mut 0).unwrap(),
        BE(-1i64)
    );
    assert_eq!(LE(-1i32).parse().unwrap(), vec![0xFF; 4]);
    assert_eq!(BE(-1i128).parse().unwrap(), vec![0xFF; 16]);
    assert_eq!(
        LE::<i128>::compose(&[0xFF; 16][..], &mut 0).unwrap(),
        LE(-1i128)
    );

    assert_eq!(BE(u24(10000)).parse().unwrap(), vec![0, 39, 16]);
    assert_eq!(LE(u24(10000)).parse().unwrap(), vec![16, 39, 0]);
    assert_eq!(
        BE::<u24>::compose(&[0, 39, 16][..], &mut 0).unwrap(),
        BE(u24(10000))
    );
    assert_eq!(
        LE::<u24>::compose(&[16, 39, 0][..], &mut 0).unwrap(),
        LE(u24(10000))
    );

    assert_eq!(BE(i24(-1)).parse().unwrap(), vec![0xFF, 0xFF, 0xFF]);
    assert_eq!(LE(i24(-1)).parse().unwrap(), vec![0xFF, 0xFF, 0xFF]);
    assert_eq!(
        BE::<i24>::compose(&[0xFF, 0xFF, 0xFF][..], &mut 0).unwrap(),
        BE(i24(-1))
    );

    // A host value outside the signed 24-bit range has no wire form.
    assert!(BE(i24(0x800000)).parse().is_err());
    assert!(LE(i24(-0x800001)).parse().is_err());
}

#[test]
fn vec_read_consumes_exactly_count() {
    let bytes = vec![2u8, 10, 20, 99];
    let mut reader = ByteReader::new(bytes);
    let restored: Vec<u8> = Vec::<u8>::read(&mut reader).unwrap();
    assert_eq!(restored, vec![10, 20]);
    assert_eq!(reader.position(), 3);
}
