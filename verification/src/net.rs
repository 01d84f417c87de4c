//! The tagged socket-address wire format.
//!
//! An address is one tag byte — 4 or 6 — followed by an address-family
//! specific payload.  The IPv4 payload is the four address octets and a
//! big-endian port.  The IPv6 payload is a reserved 16-bit family field, the
//! big-endian port, the 32-bit flow label, the sixteen address octets, and
//! the 32-bit scope id.  Any other tag is rejected as invalid data.

use crate::error::BinaryError;
use crate::io::{ByteReader, ByteWriter};
use crate::wire::{be_bytes, lemma_be_round_trip, lemma_pow256_table, nat_from_be};
use vstd::prelude::*;

verus! {

/// A transport address in either address family, held as plain values: the
/// IPv4 address as its four octets, the IPv6 address as its 128-bit value.
#[derive(Clone, Copy, Debug, PartialEq, Eq)]
pub enum SocketAddress {
    /// An IPv4 address and port.
    V4 { ip: (u8, u8, u8, u8), port: u16 },
    /// An IPv6 address, port, flow label and scope id.
    V6 { port: u16, flowinfo: u32, ip: u128, scope_id: u32 },
}

/// The wire form of a socket address.
pub open spec fn socket_wire(a: SocketAddress) -> Seq<u8> {
    match a {
        SocketAddress::V4 { ip, port } => seq![4u8, ip.0, ip.1, ip.2, ip.3] + be_bytes(
            port as nat,
            2,
        ),
        SocketAddress::V6 { port, flowinfo, ip, scope_id } => seq![6u8] + be_bytes(0, 2)
            + be_bytes(port as nat, 2) + be_bytes(flowinfo as nat, 4) + be_bytes(ip as nat, 16)
            + be_bytes(scope_id as nat, 4),
    }
}

/// What decoding a socket address at `pos` yields.
pub enum AddrParse {
    /// The decoded address and the position just past it.
    Done(SocketAddress, int),
    /// The data ended inside the tag or the payload.
    Eof,
    /// The tag byte named no known address family.
    Bad,
}

/// Parses the tagged socket-address format; the two reserved family bytes of
/// an IPv6 address are skipped without inspection.
pub open spec fn parse_socket(data: Seq<u8>, pos: int) -> AddrParse {
    if !(0 <= pos < data.len()) {
        AddrParse::Eof
    } else if data[pos] == 4 {
        if pos + 7 <= data.len() {
            AddrParse::Done(
                SocketAddress::V4 {
                    ip: (data[pos + 1], data[pos + 2], data[pos + 3], data[pos + 4]),
                    port: nat_from_be(data.subrange(pos + 5, pos + 7)) as u16,
                },
                pos + 7,
            )
        } else {
            AddrParse::Eof
        }
    } else if data[pos] == 6 {
        if pos + 29 <= data.len() {
            AddrParse::Done(
                SocketAddress::V6 {
                    port: nat_from_be(data.subrange(pos + 3, pos + 5)) as u16,
                    flowinfo: nat_from_be(data.subrange(pos + 5, pos + 9)) as u32,
                    ip: nat_from_be(data.subrange(pos + 9, pos + 25)) as u128,
                    scope_id: nat_from_be(data.subrange(pos + 25, pos + 29)) as u32,
                },
                pos + 29,
            )
        } else {
            AddrParse::Eof
        }
    } else {
        AddrParse::Bad
    }
}

impl SocketAddress {
    /// Appends the tagged wire form of the address.
    pub fn write(&self, w: &mut ByteWriter) -> (r: Result<(), BinaryError>)
        ensures
            r == Ok::<(), BinaryError>(()),
            final(w)@ == old(w)@ + socket_wire(*self),
    {
        match self {
            SocketAddress::V4 { ip, port } => {
                let _ = w.write_u8(4);
                let _ = w.write_u8(ip.0);
                let _ = w.write_u8(ip.1);
                let _ = w.write_u8(ip.2);
                let _ = w.write_u8(ip.3);
                let _ = w.write_u16(*port);
                assert(w@ =~= old(w)@ + socket_wire(*self));
                Ok(())
            },
            SocketAddress::V6 { port, flowinfo, ip, scope_id } => {
                let _ = w.write_u8(6);
                let _ = w.write_u16(0);
                let _ = w.write_u16(*port);
                let _ = w.write_u32(*flowinfo);
                let _ = w.write_u128(*ip);
                let _ = w.write_u32(*scope_id);
                assert(w@ =~= old(w)@ + socket_wire(*self));
                Ok(())
            },
        }
    }

    /// Decodes a tagged socket address; on any failure — a truncated payload
    /// or an unknown tag — the cursor is left unchanged.
    pub fn read(r: &mut ByteReader) -> (res: Result<SocketAddress, BinaryError>)
        requires
            old(r).wf(),
        ensures
            final(r).wf(),
            final(r).data() == old(r).data(),
            match parse_socket(old(r).data(), old(r).pos()) {
                AddrParse::Done(a, end) => res == Ok::<SocketAddress, BinaryError>(a)
                    && final(r).pos() == end,
                AddrParse::Eof => res == Err::<SocketAddress, BinaryError>(
                    BinaryError::UnexpectedEof,
                ) && final(r).pos() == old(r).pos(),
                AddrParse::Bad => res == Err::<SocketAddress, BinaryError>(
                    BinaryError::InvalidData,
                ) && final(r).pos() == old(r).pos(),
            },
    {
        let ghost data = old(r).data();
        let ghost pos0 = old(r).pos();
        let tag = match r.peek_ahead(0) {
            Ok(t) => t,
            Err(e) => {
                return Err(e);
            },
        };
        if tag == 4 {
            if r.remaining() >= 7 {
                r.advance(1);
                let b0 = match r.read_u8() {
                    Ok(b) => b,
                    Err(_) => {
                        return Err(BinaryError::UnexpectedEof);
                    },
                };
                let b1 = match r.read_u8() {
                    Ok(b) => b,
                    Err(_) => {
                        return Err(BinaryError::UnexpectedEof);
                    },
                };
                let b2 = match r.read_u8() {
                    Ok(b) => b,
                    Err(_) => {
                        return Err(BinaryError::UnexpectedEof);
                    },
                };
                let b3 = match r.read_u8() {
                    Ok(b) => b,
                    Err(_) => {
                        return Err(BinaryError::UnexpectedEof);
                    },
                };
                let port = match r.read_u16() {
                    Ok(p) => p,
                    Err(_) => {
                        return Err(BinaryError::UnexpectedEof);
                    },
                };
                proof {
                    assert(data.subrange(pos0 + 5, pos0 + 7) =~= old(r).data().subrange(
                        pos0 + 5,
                        pos0 + 7,
                    ));
                }
                Ok(SocketAddress::V4 { ip: (b0, b1, b2, b3), port })
            } else {
                Err(BinaryError::UnexpectedEof)
            }
        } else if tag == 6 {
            if r.remaining() >= 29 {
                r.advance(1);
                let _family = match r.read_u16() {
                    Ok(f) => f,
                    Err(_) => {
                        return Err(BinaryError::UnexpectedEof);
                    },
                };
                let port = match r.read_u16() {
                    Ok(p) => p,
                    Err(_) => {
                        return Err(BinaryError::UnexpectedEof);
                    },
                };
                let flowinfo = match r.read_u32() {
                    Ok(f) => f,
                    Err(_) => {
                        return Err(BinaryError::UnexpectedEof);
                    },
                };
                let ip = match r.read_u128() {
                    Ok(i) => i,
                    Err(_) => {
                        return Err(BinaryError::UnexpectedEof);
                    },
                };
                let scope_id = match r.read_u32() {
                    Ok(s) => s,
                    Err(_) => {
                        return Err(BinaryError::UnexpectedEof);
                    },
                };
                Ok(SocketAddress::V6 { port, flowinfo, ip, scope_id })
            } else {
                Err(BinaryError::UnexpectedEof)
            }
        } else {
            Err(BinaryError::InvalidData)
        }
    }
}

/// Decoding the wire form of a socket address placed anywhere in a buffer
/// returns the address itself: the socket-address round-trip law.
pub proof fn lemma_socket_round_trip(a: SocketAddress, data: Seq<u8>, pos: int)
    requires
        0 <= pos,
        pos + socket_wire(a).len() <= data.len(),
        data.subrange(pos, pos + socket_wire(a).len() as int) == socket_wire(a),
    ensures
        parse_socket(data, pos) == AddrParse::Done(a, pos + socket_wire(a).len()),
{
    lemma_pow256_table();
    let w = socket_wire(a);
    match a {
        SocketAddress::V4 { ip, port } => {
            crate::wire::lemma_be_bytes_len(port as nat, 2);
            assert(w.len() == 7);
            crate::wire::lemma_index_of_matching(data, pos, w, 0);
            crate::wire::lemma_index_of_matching(data, pos, w, 1);
            crate::wire::lemma_index_of_matching(data, pos, w, 2);
            crate::wire::lemma_index_of_matching(data, pos, w, 3);
            crate::wire::lemma_index_of_matching(data, pos, w, 4);
            crate::wire::lemma_subrange_of_matching(data, pos, w, 5, 7);
            assert(w.subrange(5, 7) =~= be_bytes(port as nat, 2));
            lemma_be_round_trip(port as nat, 2);
            assert(data[pos] == 4u8);
            assert(parse_socket(data, pos) == AddrParse::Done(
                SocketAddress::V4 {
                    ip: (data[pos + 1], data[pos + 2], data[pos + 3], data[pos + 4]),
                    port: nat_from_be(data.subrange(pos + 5, pos + 7)) as u16,
                },
                pos + 7,
            ));
        },
        SocketAddress::V6 { port, flowinfo, ip, scope_id } => {
            crate::wire::lemma_be_bytes_len(0, 2);
            crate::wire::lemma_be_bytes_len(port as nat, 2);
            crate::wire::lemma_be_bytes_len(flowinfo as nat, 4);
            crate::wire::lemma_be_bytes_len(ip as nat, 16);
            crate::wire::lemma_be_bytes_len(scope_id as nat, 4);
            assert(w.len() == 29);
            crate::wire::lemma_index_of_matching(data, pos, w, 0);
            crate::wire::lemma_subrange_of_matching(data, pos, w, 3, 5);
            crate::wire::lemma_subrange_of_matching(data, pos, w, 5, 9);
            crate::wire::lemma_subrange_of_matching(data, pos, w, 9, 25);
            crate::wire::lemma_subrange_of_matching(data, pos, w, 25, 29);
            assert(w.subrange(3, 5) =~= be_bytes(port as nat, 2));
            assert(w.subrange(5, 9) =~= be_bytes(flowinfo as nat, 4));
            assert(w.subrange(9, 25) =~= be_bytes(ip as nat, 16));
            assert(w.subrange(25, 29) =~= be_bytes(scope_id as nat, 4));
            lemma_be_round_trip(port as nat, 2);
            lemma_be_round_trip(flowinfo as nat, 4);
            lemma_be_round_trip(ip as nat, 16);
            lemma_be_round_trip(scope_id as nat, 4);
            assert(data[pos] == 6u8);
        },
    }
}

} // verus!
