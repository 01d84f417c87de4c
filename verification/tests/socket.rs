use binary_util::error::BinaryError;
use binary_util::interfaces::Streamable;
use binary_util::io::ByteReader;
use binary_util::net::SocketAddress;

#[test]
fn test_socket() {
    let socket = SocketAddress::V4 { ip: (127, 0, 0, 1), port: 19132 };
    assert_eq!(socket.fparse(), vec![4, 127, 0, 0, 1, 74, 188]);
}

#[test]
fn socket_v4_round_trip() {
    let socket = SocketAddress::V4 { ip: (10, 0, 0, 7), port: 80 };
    let bytes = socket.fparse();
    let mut pos: usize = 0;
    let back = SocketAddress::compose(&bytes[..], &mut pos).unwrap();
    assert_eq!(back, socket);
    assert_eq!(pos, 7);
}

#[test]
fn socket_v6_round_trip() {
    let socket = SocketAddress::V6 {
        port: 19132,
        flowinfo: 9,
        ip: 0x20010DB8000000000000000000000001,
        scope_id: 3,
    };
    let bytes = socket.fparse();
    assert_eq!(bytes.len(), 29);
    assert_eq!(bytes[0], 6);
    let mut pos: usize = 0;
    let back = SocketAddress::compose(&bytes[..], &mut pos).unwrap();
    assert_eq!(back, socket);
}

#[test]
fn socket_bad_tag_is_invalid_data() {
    let mut reader = ByteReader::new(vec![5, 1, 2, 3]);
    assert_eq!(SocketAddress::read(&mut reader), Err(BinaryError::InvalidData));
    assert_eq!(reader.position(), 0);
}
