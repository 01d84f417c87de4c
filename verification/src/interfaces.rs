//! The record trait pair: the two-operation contract every wire type
//! exposes.
//!
//! [`Reader`] decodes a value from a cursor and [`Writer`] appends a value's
//! wire form; [`Streamable`] layers the convenience pair on top — encode to
//! owned bytes, decode from a byte slice at a position.  Every primitive
//! codec type implements the pair directly; composite user records obtain
//! the same two operations from the schema compiler in [`crate::codec`].

use crate::error::BinaryError;
use crate::io::{bool_byte, to_byte_vec, ByteReader, ByteWriter};
use crate::net::{parse_socket, socket_wire, AddrParse, SocketAddress};
use crate::types::{i24, u24, vari32, vari64, varu32, varu64, BE, LE};
use crate::wire::{
    be_bytes, le_bytes, lemma_parse_varint_bounds, nat_from_be, nat_from_le, parse_varint, pow256,
    sign_extend, to_unsigned, unzigzag, varint_bytes, zigzag, VarParse,
};
use vstd::prelude::*;
use vstd::utf8::{decode_utf8, encode_utf8, is_scalar, valid_utf8};

verus! {

/// Decodes values of type `Output` from a byte cursor.
///
/// `read_rel` states what a successful read at a position yields, and
/// `read_some` when success is owed; `read` is the operation itself.
pub trait Reader<Output>: Sized {
    /// Whether a read at `pos` succeeds.
    spec fn read_some(data: Seq<u8>, pos: int) -> bool;

    /// Whether a read at `pos` yields `v` and stops at `end`.
    spec fn read_rel(data: Seq<u8>, pos: int, v: Output, end: int) -> bool;

    /// A successful read stays within the buffer.
    proof fn lemma_read_bounds(data: Seq<u8>, pos: int)
        ensures
            Self::read_some(data, pos) ==> 0 <= pos <= data.len(),
            forall|v: Output, end: int|
                #[trigger] Self::read_rel(data, pos, v, end) ==> 0 <= pos <= end <= data.len(),
    ;

    /// Reads one value from the cursor.
    fn read(buf: &mut ByteReader) -> (r: Result<Output, BinaryError>)
        requires
            old(buf).wf(),
        ensures
            final(buf).wf(),
            final(buf).data() == old(buf).data(),
            r matches Ok(v) ==> Self::read_rel(
                old(buf).data(),
                old(buf).pos(),
                v,
                final(buf).pos(),
            ),
            r is Err ==> !Self::read_some(old(buf).data(), old(buf).pos()),
            Self::read_some(old(buf).data(), old(buf).pos()) ==> r is Ok,
    ;

    /// Reads one value from the front of a byte slice.
    fn read_from_slice(buf: &[u8]) -> (r: Result<Output, BinaryError>)
        ensures
            r matches Ok(v) ==> exists|end: int| #[trigger] Self::read_rel(buf@, 0, v, end),
            r is Err ==> !Self::read_some(buf@, 0),
            Self::read_some(buf@, 0) ==> r is Ok,
    {
        let mut reader = ByteReader::new(to_byte_vec(buf));
        Self::read(&mut reader)
    }
}

/// Appends values to a byte sink.
///
/// `wire_form` is the value's byte sequence on the wire, or nothing when the
/// value cannot be encoded; `write` appends exactly that sequence.
pub trait Writer {
    /// The wire form of the value, when it has one.
    spec fn wire_form(&self) -> Option<Seq<u8>>;

    /// Appends the value's wire form.
    fn write(&self, buf: &mut ByteWriter) -> (r: Result<(), BinaryError>)
        ensures
            match self.wire_form() {
                Some(b) => r == Ok::<(), BinaryError>(()) && final(buf)@ == old(buf)@ + b,
                None => r is Err,
            },
    ;

    /// Encodes the value into a writer of its own.
    fn write_to_bytes(&self) -> (r: Result<ByteWriter, BinaryError>)
        ensures
            match self.wire_form() {
                Some(b) => r matches Ok(w) && w@ == b,
                None => r is Err,
            },
    {
        let mut buf = ByteWriter::new();
        match self.write(&mut buf) {
            Ok(_) => {
                proof {
                    match self.wire_form() {
                        Some(b) => {
                            assert(Seq::<u8>::empty() + b =~= b);
                        },
                        None => {},
                    }
                }
                Ok(buf)
            },
            Err(e) => Err(e),
        }
    }
}

/// The convenience pair layered on the record traits: encode to owned bytes
/// and decode from a byte slice at a tracked position.
pub trait Streamable<Output>: Reader<Output> + Writer {
    /// Encodes the value to owned bytes.
    fn parse(&self) -> (r: Result<Vec<u8>, BinaryError>)
        ensures
            match self.wire_form() {
                Some(b) => r matches Ok(v) && v@ == b,
                None => r is Err,
            },
    {
        match self.write_to_bytes() {
            Ok(w) => Ok(w.into_vec()),
            Err(e) => Err(e),
        }
    }

    /// Encodes a value whose encoding cannot fail.
    fn fparse(&self) -> (r: Vec<u8>)
        requires
            self.wire_form() is Some,
        ensures
            r@ == self.wire_form().unwrap(),
    {
        match self.parse() {
            Ok(v) => v,
            Err(_) => vstd::pervasive::unreached(),
        }
    }

    /// Decodes one value from `source` at `position`, advancing the position
    /// past the value's bytes on success and leaving it unchanged on failure.
    fn compose(source: &[u8], position: &mut usize) -> (r: Result<Output, BinaryError>)
        ensures
            r matches Ok(v) ==> Self::read_rel(
                source@,
                *old(position) as int,
                v,
                *final(position) as int,
            ),
            r is Err ==> !Self::read_some(source@, *old(position) as int) && *final(position)
                == *old(position),
            Self::read_some(source@, *old(position) as int) ==> r is Ok,
    {
        proof {
            Self::lemma_read_bounds(source@, *position as int);
        }
        if *position > source.len() {
            return Err(BinaryError::UnexpectedEof);
        }
        let mut reader = ByteReader::new(to_byte_vec(source));
        reader.advance(*position);
        match Self::read(&mut reader) {
            Ok(v) => {
                proof {
                    Self::lemma_read_bounds(source@, *position as int);
                }
                *position = reader.position();
                Ok(v)
            },
            Err(e) => Err(e),
        }
    }

    /// Decodes a value that is known to be present.
    fn fcompose(source: &[u8], position: &mut usize) -> (r: Output)
        requires
            Self::read_some(source@, *old(position) as int),
        ensures
            Self::read_rel(source@, *old(position) as int, r, *final(position) as int),
    {
        match Self::compose(source, position) {
            Ok(v) => v,
            Err(_) => vstd::pervasive::unreached(),
        }
    }
}

impl Reader<u8> for u8 {
    open spec fn read_some(data: Seq<u8>, pos: int) -> bool {
        0 <= pos && pos + 1 <= data.len()
    }

    open spec fn read_rel(data: Seq<u8>, pos: int, v: u8, end: int) -> bool {
        0 <= pos && pos + 1 <= data.len() && v == data[pos] && end == pos + 1
    }

    proof fn lemma_read_bounds(data: Seq<u8>, pos: int) {
    }

    fn read(buf: &mut ByteReader) -> (r: Result<u8, BinaryError>) {
        match buf.read_u8() {
            Ok(x) => Ok(x),
            Err(e) => Err(e),
        }
    }
}

impl Writer for u8 {
    open spec fn wire_form(&self) -> Option<Seq<u8>> {
        Some(seq![*self])
    }

    fn write(&self, buf: &mut ByteWriter) -> (r: Result<(), BinaryError>) {
        buf.write_u8(*self)
    }
}

impl Streamable<u8> for u8 {
}

impl Reader<i8> for i8 {
    open spec fn read_some(data: Seq<u8>, pos: int) -> bool {
        0 <= pos && pos + 1 <= data.len()
    }

    open spec fn read_rel(data: Seq<u8>, pos: int, v: i8, end: int) -> bool {
        0 <= pos && pos + 1 <= data.len() && v == sign_extend(data[pos] as nat, 1) as i8 && end == pos + 1
    }

    proof fn lemma_read_bounds(data: Seq<u8>, pos: int) {
    }

    fn read(buf: &mut ByteReader) -> (r: Result<i8, BinaryError>) {
        match buf.read_i8() {
            Ok(x) => Ok(x),
            Err(e) => Err(e),
        }
    }
}

impl Writer for i8 {
    open spec fn wire_form(&self) -> Option<Seq<u8>> {
        Some(be_bytes(to_unsigned(*self as int, 1), 1))
    }

    fn write(&self, buf: &mut ByteWriter) -> (r: Result<(), BinaryError>) {
        buf.write_i8(*self)
    }
}

impl Streamable<i8> for i8 {
}

impl Reader<u16> for u16 {
    open spec fn read_some(data: Seq<u8>, pos: int) -> bool {
        0 <= pos && pos + 2 <= data.len()
    }

    open spec fn read_rel(data: Seq<u8>, pos: int, v: u16, end: int) -> bool {
        0 <= pos && pos + 2 <= data.len() && v == nat_from_be(data.subrange(pos, pos + 2)) as u16 && end == pos + 2
    }

    proof fn lemma_read_bounds(data: Seq<u8>, pos: int) {
    }

    fn read(buf: &mut ByteReader) -> (r: Result<u16, BinaryError>) {
        match buf.read_u16() {
            Ok(x) => Ok(x),
            Err(e) => Err(e),
        }
    }
}

impl Writer for u16 {
    open spec fn wire_form(&self) -> Option<Seq<u8>> {
        Some(be_bytes(*self as nat, 2))
    }

    fn write(&self, buf: &mut ByteWriter) -> (r: Result<(), BinaryError>) {
        buf.write_u16(*self)
    }
}

impl Streamable<u16> for u16 {
}

impl Reader<u32> for u32 {
    open spec fn read_some(data: Seq<u8>, pos: int) -> bool {
        0 <= pos && pos + 4 <= data.len()
    }

    open spec fn read_rel(data: Seq<u8>, pos: int, v: u32, end: int) -> bool {
        0 <= pos && pos + 4 <= data.len() && v == nat_from_be(data.subrange(pos, pos + 4)) as u32 && end == pos + 4
    }

    proof fn lemma_read_bounds(data: Seq<u8>, pos: int) {
    }

    fn read(buf: &mut ByteReader) -> (r: Result<u32, BinaryError>) {
        match buf.read_u32() {
            Ok(x) => Ok(x),
            Err(e) => Err(e),
        }
    }
}

impl Writer for u32 {
    open spec fn wire_form(&self) -> Option<Seq<u8>> {
        Some(be_bytes(*self as nat, 4))
    }

    fn write(&self, buf: &mut ByteWriter) -> (r: Result<(), BinaryError>) {
        buf.write_u32(*self)
    }
}

impl Streamable<u32> for u32 {
}

impl Reader<u64> for u64 {
    open spec fn read_some(data: Seq<u8>, pos: int) -> bool {
        0 <= pos && pos + 8 <= data.len()
    }

    open spec fn read_rel(data: Seq<u8>, pos: int, v: u64, end: int) -> bool {
        0 <= pos && pos + 8 <= data.len() && v == nat_from_be(data.subrange(pos, pos + 8)) as u64 && end == pos + 8
    }

    proof fn lemma_read_bounds(data: Seq<u8>, pos: int) {
    }

    fn read(buf: &mut ByteReader) -> (r: Result<u64, BinaryError>) {
        match buf.read_u64() {
            Ok(x) => Ok(x),
            Err(e) => Err(e),
        }
    }
}

impl Writer for u64 {
    open spec fn wire_form(&self) -> Option<Seq<u8>> {
        Some(be_bytes(*self as nat, 8))
    }

    fn write(&self, buf: &mut ByteWriter) -> (r: Result<(), BinaryError>) {
        buf.write_u64(*self)
    }
}

impl Streamable<u64> for u64 {
}

impl Reader<i64> for i64 {
    open spec fn read_some(data: Seq<u8>, pos: int) -> bool {
        0 <= pos && pos + 8 <= data.len()
    }

    open spec fn read_rel(data: Seq<u8>, pos: int, v: i64, end: int) -> bool {
        0 <= pos && pos + 8 <= data.len() && v == sign_extend(nat_from_be(data.subrange(pos, pos + 8)), 8) as i64 && end == pos + 8
    }

    proof fn lemma_read_bounds(data: Seq<u8>, pos: int) {
    }

    fn read(buf: &mut ByteReader) -> (r: Result<i64, BinaryError>) {
        match buf.read_i64() {
            Ok(x) => Ok(x),
            Err(e) => Err(e),
        }
    }
}

impl Writer for i64 {
    open spec fn wire_form(&self) -> Option<Seq<u8>> {
        Some(be_bytes(to_unsigned(*self as int, 8), 8))
    }

    fn write(&self, buf: &mut ByteWriter) -> (r: Result<(), BinaryError>) {
        buf.write_i64(*self)
    }
}

impl Streamable<i64> for i64 {
}

impl Reader<bool> for bool {
    open spec fn read_some(data: Seq<u8>, pos: int) -> bool {
        0 <= pos && pos + 1 <= data.len()
    }

    open spec fn read_rel(data: Seq<u8>, pos: int, v: bool, end: int) -> bool {
        0 <= pos && pos + 1 <= data.len() && v == (data[pos] != 0) && end == pos + 1
    }

    proof fn lemma_read_bounds(data: Seq<u8>, pos: int) {
    }

    fn read(buf: &mut ByteReader) -> (r: Result<bool, BinaryError>) {
        match buf.read_bool() {
            Ok(x) => Ok(x),
            Err(e) => Err(e),
        }
    }
}

impl Writer for bool {
    open spec fn wire_form(&self) -> Option<Seq<u8>> {
        Some(seq![bool_byte(*self)])
    }

    fn write(&self, buf: &mut ByteWriter) -> (r: Result<(), BinaryError>) {
        buf.write_bool(*self)
    }
}

impl Streamable<bool> for bool {
}

impl Reader<u24> for u24 {
    open spec fn read_some(data: Seq<u8>, pos: int) -> bool {
        0 <= pos && pos + 3 <= data.len()
    }

    open spec fn read_rel(data: Seq<u8>, pos: int, v: u24, end: int) -> bool {
        0 <= pos && pos + 3 <= data.len() && v == u24(nat_from_be(data.subrange(pos, pos + 3)) as u32) && end == pos + 3
    }

    proof fn lemma_read_bounds(data: Seq<u8>, pos: int) {
    }

    fn read(buf: &mut ByteReader) -> (r: Result<u24, BinaryError>) {
        match buf.read_u24() {
            Ok(x) => Ok(u24(x)),
            Err(e) => Err(e),
        }
    }
}

impl Writer for u24 {
    open spec fn wire_form(&self) -> Option<Seq<u8>> {
        Some(be_bytes(self.0 as nat % pow256(3), 3))
    }

    fn write(&self, buf: &mut ByteWriter) -> (r: Result<(), BinaryError>) {
        buf.write_u24(self.0)
    }
}

impl Streamable<u24> for u24 {
}

impl Reader<i24> for i24 {
    open spec fn read_some(data: Seq<u8>, pos: int) -> bool {
        0 <= pos && pos + 3 <= data.len()
    }

    open spec fn read_rel(data: Seq<u8>, pos: int, v: i24, end: int) -> bool {
        0 <= pos && pos + 3 <= data.len() && v == i24(sign_extend(nat_from_be(data.subrange(pos, pos + 3)), 3) as i32) && end == pos + 3
    }

    proof fn lemma_read_bounds(data: Seq<u8>, pos: int) {
    }

    fn read(buf: &mut ByteReader) -> (r: Result<i24, BinaryError>) {
        match buf.read_i24() {
            Ok(x) => Ok(i24(x)),
            Err(e) => Err(e),
        }
    }
}

impl Writer for i24 {
    open spec fn wire_form(&self) -> Option<Seq<u8>> {
        if -0x800000 <= self.0 <= 0x7FFFFF {
            Some(be_bytes(to_unsigned(self.0 as int, 3), 3))
        } else {
            None
        }
    }

    fn write(&self, buf: &mut ByteWriter) -> (r: Result<(), BinaryError>) {
        if -0x800000 <= self.0 && self.0 <= 0x7FFFFF {
            buf.write_i24(self.0)
        } else {
            Err(BinaryError::InvalidData)
        }
    }
}

impl Streamable<i24> for i24 {
}

impl Reader<varu32> for varu32 {
    open spec fn read_some(data: Seq<u8>, pos: int) -> bool {
        parse_varint(data, pos, 5) is Done
    }

    open spec fn read_rel(data: Seq<u8>, pos: int, v: varu32, end: int) -> bool {
        match parse_varint(data, pos, 5) {
            VarParse::Done(u, e) => v == varu32((u % 0x100000000) as u32) && end == e,
            _ => false,
        }
    }

    proof fn lemma_read_bounds(data: Seq<u8>, pos: int) {
        lemma_parse_varint_bounds(data, pos, 5);
    }

    fn read(buf: &mut ByteReader) -> (r: Result<varu32, BinaryError>) {
        match buf.read_var_u32() {
            Ok(x) => Ok(varu32(x)),
            Err(e) => Err(e),
        }
    }
}

impl Writer for varu32 {
    open spec fn wire_form(&self) -> Option<Seq<u8>> {
        Some(varint_bytes(self.0 as nat))
    }

    fn write(&self, buf: &mut ByteWriter) -> (r: Result<(), BinaryError>) {
        buf.write_var_u32(self.0)
    }
}

impl Streamable<varu32> for varu32 {
}

impl Reader<vari32> for vari32 {
    open spec fn read_some(data: Seq<u8>, pos: int) -> bool {
        parse_varint(data, pos, 5) is Done
    }

    open spec fn read_rel(data: Seq<u8>, pos: int, v: vari32, end: int) -> bool {
        match parse_varint(data, pos, 5) {
            VarParse::Done(u, e) => v == vari32(unzigzag(u % 0x100000000) as i32) && end == e,
            _ => false,
        }
    }

    proof fn lemma_read_bounds(data: Seq<u8>, pos: int) {
        lemma_parse_varint_bounds(data, pos, 5);
    }

    fn read(buf: &mut ByteReader) -> (r: Result<vari32, BinaryError>) {
        match buf.read_var_i32() {
            Ok(x) => Ok(vari32(x)),
            Err(e) => Err(e),
        }
    }
}

impl Writer for vari32 {
    open spec fn wire_form(&self) -> Option<Seq<u8>> {
        Some(varint_bytes(zigzag(self.0 as int)))
    }

    fn write(&self, buf: &mut ByteWriter) -> (r: Result<(), BinaryError>) {
        buf.write_var_i32(self.0)
    }
}

impl Streamable<vari32> for vari32 {
}

impl Reader<varu64> for varu64 {
    open spec fn read_some(data: Seq<u8>, pos: int) -> bool {
        parse_varint(data, pos, 10) is Done
    }

    open spec fn read_rel(data: Seq<u8>, pos: int, v: varu64, end: int) -> bool {
        match parse_varint(data, pos, 10) {
            VarParse::Done(u, e) => v == varu64((u % 0x10000000000000000) as u64) && end == e,
            _ => false,
        }
    }

    proof fn lemma_read_bounds(data: Seq<u8>, pos: int) {
        lemma_parse_varint_bounds(data, pos, 10);
    }

    fn read(buf: &mut ByteReader) -> (r: Result<varu64, BinaryError>) {
        match buf.read_var_u64() {
            Ok(x) => Ok(varu64(x)),
            Err(e) => Err(e),
        }
    }
}

impl Writer for varu64 {
    open spec fn wire_form(&self) -> Option<Seq<u8>> {
        Some(varint_bytes(self.0 as nat))
    }

    fn write(&self, buf: &mut ByteWriter) -> (r: Result<(), BinaryError>) {
        buf.write_var_u64(self.0)
    }
}

impl Streamable<varu64> for varu64 {
}

impl Reader<vari64> for vari64 {
    open spec fn read_some(data: Seq<u8>, pos: int) -> bool {
        parse_varint(data, pos, 10) is Done
    }

    open spec fn read_rel(data: Seq<u8>, pos: int, v: vari64, end: int) -> bool {
        match parse_varint(data, pos, 10) {
            VarParse::Done(u, e) => v == vari64(unzigzag(u % 0x10000000000000000) as i64) && end == e,
            _ => false,
        }
    }

    proof fn lemma_read_bounds(data: Seq<u8>, pos: int) {
        lemma_parse_varint_bounds(data, pos, 10);
    }

    fn read(buf: &mut ByteReader) -> (r: Result<vari64, BinaryError>) {
        match buf.read_var_i64() {
            Ok(x) => Ok(vari64(x)),
            Err(e) => Err(e),
        }
    }
}

impl Writer for vari64 {
    open spec fn wire_form(&self) -> Option<Seq<u8>> {
        Some(varint_bytes(zigzag(self.0 as int)))
    }

    fn write(&self, buf: &mut ByteWriter) -> (r: Result<(), BinaryError>) {
        buf.write_var_i64(self.0)
    }
}

impl Streamable<vari64> for vari64 {
}

impl Reader<String> for String {
    open spec fn read_some(data: Seq<u8>, pos: int) -> bool {
        match parse_varint(data, pos, 5) {
            VarParse::Done(u, mid) => mid + (u % 0x100000000) <= data.len() && valid_utf8(
                data.subrange(mid, mid + (u % 0x100000000)),
            ),
            _ => false,
        }
    }

    open spec fn read_rel(data: Seq<u8>, pos: int, v: String, end: int) -> bool {
        match parse_varint(data, pos, 5) {
            VarParse::Done(u, mid) => {
                let n = u % 0x100000000;
                mid + n <= data.len() && valid_utf8(data.subrange(mid, mid + n)) && v@
                    == decode_utf8(data.subrange(mid, mid + n)) && end == mid + n
            },
            _ => false,
        }
    }

    proof fn lemma_read_bounds(data: Seq<u8>, pos: int) {
        lemma_parse_varint_bounds(data, pos, 5);
    }

    fn read(buf: &mut ByteReader) -> (r: Result<String, BinaryError>) {
        match buf.read_string() {
            Ok(s) => Ok(s),
            Err(e) => Err(e),
        }
    }
}

impl Writer for String {
    open spec fn wire_form(&self) -> Option<Seq<u8>> {
        if encode_utf8(self@).len() < 0x100000000 {
            Some(varint_bytes(encode_utf8(self@).len()) + encode_utf8(self@))
        } else {
            None
        }
    }

    fn write(&self, buf: &mut ByteWriter) -> (r: Result<(), BinaryError>) {
        if (self.as_str().as_bytes().len() as u64) < 0x100000000 {
            buf.write_string(self.as_str())
        } else {
            Err(BinaryError::InvalidData)
        }
    }
}

impl Streamable<String> for String {
}

impl Reader<SocketAddress> for SocketAddress {
    open spec fn read_some(data: Seq<u8>, pos: int) -> bool {
        parse_socket(data, pos) is Done
    }

    open spec fn read_rel(data: Seq<u8>, pos: int, v: SocketAddress, end: int) -> bool {
        match parse_socket(data, pos) {
            AddrParse::Done(a, e) => v == a && end == e,
            _ => false,
        }
    }

    proof fn lemma_read_bounds(data: Seq<u8>, pos: int) {
    }

    fn read(buf: &mut ByteReader) -> (r: Result<SocketAddress, BinaryError>) {
        SocketAddress::read(buf)
    }
}

impl Writer for SocketAddress {
    open spec fn wire_form(&self) -> Option<Seq<u8>> {
        Some(socket_wire(*self))
    }

    fn write(&self, buf: &mut ByteWriter) -> (r: Result<(), BinaryError>) {
        SocketAddress::write(self, buf)
    }
}

impl Streamable<SocketAddress> for SocketAddress {
}

impl Reader<LE<u16>> for LE<u16> {
    open spec fn read_some(data: Seq<u8>, pos: int) -> bool {
        0 <= pos && pos + 2 <= data.len()
    }

    open spec fn read_rel(data: Seq<u8>, pos: int, v: LE<u16>, end: int) -> bool {
        0 <= pos && pos + 2 <= data.len() && v == LE(nat_from_le(data.subrange(pos, pos + 2)) as u16) && end == pos + 2
    }

    proof fn lemma_read_bounds(data: Seq<u8>, pos: int) {
    }

    fn read(buf: &mut ByteReader) -> (r: Result<LE<u16>, BinaryError>) {
        match buf.read_u16_le() {
            Ok(x) => Ok(LE(x)),
            Err(e) => Err(e),
        }
    }
}

impl Writer for LE<u16> {
    open spec fn wire_form(&self) -> Option<Seq<u8>> {
        Some(le_bytes(self.0 as nat, 2))
    }

    fn write(&self, buf: &mut ByteWriter) -> (r: Result<(), BinaryError>) {
        buf.write_u16_le(self.0)
    }
}

impl Streamable<LE<u16>> for LE<u16> {
}

impl Reader<BE<u16>> for BE<u16> {
    open spec fn read_some(data: Seq<u8>, pos: int) -> bool {
        0 <= pos && pos + 2 <= data.len()
    }

    open spec fn read_rel(data: Seq<u8>, pos: int, v: BE<u16>, end: int) -> bool {
        0 <= pos && pos + 2 <= data.len() && v == BE(nat_from_be(data.subrange(pos, pos + 2)) as u16) && end == pos + 2
    }

    proof fn lemma_read_bounds(data: Seq<u8>, pos: int) {
    }

    fn read(buf: &mut ByteReader) -> (r: Result<BE<u16>, BinaryError>) {
        match buf.read_u16() {
            Ok(x) => Ok(BE(x)),
            Err(e) => Err(e),
        }
    }
}

impl Writer for BE<u16> {
    open spec fn wire_form(&self) -> Option<Seq<u8>> {
        Some(be_bytes(self.0 as nat, 2))
    }

    fn write(&self, buf: &mut ByteWriter) -> (r: Result<(), BinaryError>) {
        buf.write_u16(self.0)
    }
}

impl Streamable<BE<u16>> for BE<u16> {
}

impl Reader<LE<u32>> for LE<u32> {
    open spec fn read_some(data: Seq<u8>, pos: int) -> bool {
        0 <= pos && pos + 4 <= data.len()
    }

    open spec fn read_rel(data: Seq<u8>, pos: int, v: LE<u32>, end: int) -> bool {
        0 <= pos && pos + 4 <= data.len() && v == LE(nat_from_le(data.subrange(pos, pos + 4)) as u32) && end == pos + 4
    }

    proof fn lemma_read_bounds(data: Seq<u8>, pos: int) {
    }

    fn read(buf: &mut ByteReader) -> (r: Result<LE<u32>, BinaryError>) {
        match buf.read_u32_le() {
            Ok(x) => Ok(LE(x)),
            Err(e) => Err(e),
        }
    }
}

impl Writer for LE<u32> {
    open spec fn wire_form(&self) -> Option<Seq<u8>> {
        Some(le_bytes(self.0 as nat, 4))
    }

    fn write(&self, buf: &mut ByteWriter) -> (r: Result<(), BinaryError>) {
        buf.write_u32_le(self.0)
    }
}

impl Streamable<LE<u32>> for LE<u32> {
}

impl Reader<BE<u32>> for BE<u32> {
    open spec fn read_some(data: Seq<u8>, pos: int) -> bool {
        0 <= pos && pos + 4 <= data.len()
    }

    open spec fn read_rel(data: Seq<u8>, pos: int, v: BE<u32>, end: int) -> bool {
        0 <= pos && pos + 4 <= data.len() && v == BE(nat_from_be(data.subrange(pos, pos + 4)) as u32) && end == pos + 4
    }

    proof fn lemma_read_bounds(data: Seq<u8>, pos: int) {
    }

    fn read(buf: &mut ByteReader) -> (r: Result<BE<u32>, BinaryError>) {
        match buf.read_u32() {
            Ok(x) => Ok(BE(x)),
            Err(e) => Err(e),
        }
    }
}

impl Writer for BE<u32> {
    open spec fn wire_form(&self) -> Option<Seq<u8>> {
        Some(be_bytes(self.0 as nat, 4))
    }

    fn write(&self, buf: &mut ByteWriter) -> (r: Result<(), BinaryError>) {
        buf.write_u32(self.0)
    }
}

impl Streamable<BE<u32>> for BE<u32> {
}

impl Reader<LE<u64>> for LE<u64> {
    open spec fn read_some(data: Seq<u8>, pos: int) -> bool {
        0 <= pos && pos + 8 <= data.len()
    }

    open spec fn read_rel(data: Seq<u8>, pos: int, v: LE<u64>, end: int) -> bool {
        0 <= pos && pos + 8 <= data.len() && v == LE(nat_from_le(data.subrange(pos, pos + 8)) as u64) && end == pos + 8
    }

    proof fn lemma_read_bounds(data: Seq<u8>, pos: int) {
    }

    fn read(buf: &mut ByteReader) -> (r: Result<LE<u64>, BinaryError>) {
        match buf.read_u64_le() {
            Ok(x) => Ok(LE(x)),
            Err(e) => Err(e),
        }
    }
}

impl Writer for LE<u64> {
    open spec fn wire_form(&self) -> Option<Seq<u8>> {
        Some(le_bytes(self.0 as nat, 8))
    }

    fn write(&self, buf: &mut ByteWriter) -> (r: Result<(), BinaryError>) {
        buf.write_u64_le(self.0)
    }
}

impl Streamable<LE<u64>> for LE<u64> {
}

impl Reader<BE<u64>> for BE<u64> {
    open spec fn read_some(data: Seq<u8>, pos: int) -> bool {
        0 <= pos && pos + 8 <= data.len()
    }

    open spec fn read_rel(data: Seq<u8>, pos: int, v: BE<u64>, end: int) -> bool {
        0 <= pos && pos + 8 <= data.len() && v == BE(nat_from_be(data.subrange(pos, pos + 8)) as u64) && end == pos + 8
    }

    proof fn lemma_read_bounds(data: Seq<u8>, pos: int) {
    }

    fn read(buf: &mut ByteReader) -> (r: Result<BE<u64>, BinaryError>) {
        match buf.read_u64() {
            Ok(x) => Ok(BE(x)),
            Err(e) => Err(e),
        }
    }
}

impl Writer for BE<u64> {
    open spec fn wire_form(&self) -> Option<Seq<u8>> {
        Some(be_bytes(self.0 as nat, 8))
    }

    fn write(&self, buf: &mut ByteWriter) -> (r: Result<(), BinaryError>) {
        buf.write_u64(self.0)
    }
}

impl Streamable<BE<u64>> for BE<u64> {
}

impl Reader<LE<u128>> for LE<u128> {
    open spec fn read_some(data: Seq<u8>, pos: int) -> bool {
        0 <= pos && pos + 16 <= data.len()
    }

    open spec fn read_rel(data: Seq<u8>, pos: int, v: LE<u128>, end: int) -> bool {
        0 <= pos && pos + 16 <= data.len() && v == LE(nat_from_le(data.subrange(pos, pos + 16)) as u128) && end == pos + 16
    }

    proof fn lemma_read_bounds(data: Seq<u8>, pos: int) {
    }

    fn read(buf: &mut ByteReader) -> (r: Result<LE<u128>, BinaryError>) {
        match buf.read_u128_le() {
            Ok(x) => Ok(LE(x)),
            Err(e) => Err(e),
        }
    }
}

impl Writer for LE<u128> {
    open spec fn wire_form(&self) -> Option<Seq<u8>> {
        Some(le_bytes(self.0 as nat, 16))
    }

    fn write(&self, buf: &mut ByteWriter) -> (r: Result<(), BinaryError>) {
        buf.write_u128_le(self.0)
    }
}

impl Streamable<LE<u128>> for LE<u128> {
}

impl Reader<BE<u128>> for BE<u128> {
    open spec fn read_some(data: Seq<u8>, pos: int) -> bool {
        0 <= pos && pos + 16 <= data.len()
    }

    open spec fn read_rel(data: Seq<u8>, pos: int, v: BE<u128>, end: int) -> bool {
        0 <= pos && pos + 16 <= data.len() && v == BE(nat_from_be(data.subrange(pos, pos + 16)) as u128) && end == pos + 16
    }

    proof fn lemma_read_bounds(data: Seq<u8>, pos: int) {
    }

    fn read(buf: &mut ByteReader) -> (r: Result<BE<u128>, BinaryError>) {
        match buf.read_u128() {
            Ok(x) => Ok(BE(x)),
            Err(e) => Err(e),
        }
    }
}

impl Writer for BE<u128> {
    open spec fn wire_form(&self) -> Option<Seq<u8>> {
        Some(be_bytes(self.0 as nat, 16))
    }

    fn write(&self, buf: &mut ByteWriter) -> (r: Result<(), BinaryError>) {
        buf.write_u128(self.0)
    }
}

impl Streamable<BE<u128>> for BE<u128> {
}

impl Reader<i16> for i16 {
    open spec fn read_some(data: Seq<u8>, pos: int) -> bool {
        0 <= pos && pos + 2 <= data.len()
    }

    open spec fn read_rel(data: Seq<u8>, pos: int, v: i16, end: int) -> bool {
        0 <= pos && pos + 2 <= data.len() && v == sign_extend(nat_from_be(data.subrange(pos, pos + 2)), 2) as i16 && end == pos + 2
    }

    proof fn lemma_read_bounds(data: Seq<u8>, pos: int) {
    }

    fn read(buf: &mut ByteReader) -> (r: Result<i16, BinaryError>) {
        match buf.read_i16() {
            Ok(x) => Ok(x),
            Err(e) => Err(e),
        }
    }
}

impl Writer for i16 {
    open spec fn wire_form(&self) -> Option<Seq<u8>> {
        Some(be_bytes(to_unsigned(*self as int, 2), 2))
    }

    fn write(&self, buf: &mut ByteWriter) -> (r: Result<(), BinaryError>) {
        buf.write_i16(*self)
    }
}

impl Streamable<i16> for i16 {
}

impl Reader<i32> for i32 {
    open spec fn read_some(data: Seq<u8>, pos: int) -> bool {
        0 <= pos && pos + 4 <= data.len()
    }

    open spec fn read_rel(data: Seq<u8>, pos: int, v: i32, end: int) -> bool {
        0 <= pos && pos + 4 <= data.len() && v == sign_extend(nat_from_be(data.subrange(pos, pos + 4)), 4) as i32 && end == pos + 4
    }

    proof fn lemma_read_bounds(data: Seq<u8>, pos: int) {
    }

    fn read(buf: &mut ByteReader) -> (r: Result<i32, BinaryError>) {
        match buf.read_i32() {
            Ok(x) => Ok(x),
            Err(e) => Err(e),
        }
    }
}

impl Writer for i32 {
    open spec fn wire_form(&self) -> Option<Seq<u8>> {
        Some(be_bytes(to_unsigned(*self as int, 4), 4))
    }

    fn write(&self, buf: &mut ByteWriter) -> (r: Result<(), BinaryError>) {
        buf.write_i32(*self)
    }
}

impl Streamable<i32> for i32 {
}

impl Reader<u128> for u128 {
    open spec fn read_some(data: Seq<u8>, pos: int) -> bool {
        0 <= pos && pos + 16 <= data.len()
    }

    open spec fn read_rel(data: Seq<u8>, pos: int, v: u128, end: int) -> bool {
        0 <= pos && pos + 16 <= data.len() && v == nat_from_be(data.subrange(pos, pos + 16)) as u128 && end == pos + 16
    }

    proof fn lemma_read_bounds(data: Seq<u8>, pos: int) {
    }

    fn read(buf: &mut ByteReader) -> (r: Result<u128, BinaryError>) {
        match buf.read_u128() {
            Ok(x) => Ok(x),
            Err(e) => Err(e),
        }
    }
}

impl Writer for u128 {
    open spec fn wire_form(&self) -> Option<Seq<u8>> {
        Some(be_bytes(*self as nat, 16))
    }

    fn write(&self, buf: &mut ByteWriter) -> (r: Result<(), BinaryError>) {
        buf.write_u128(*self)
    }
}

impl Streamable<u128> for u128 {
}

impl Reader<i128> for i128 {
    open spec fn read_some(data: Seq<u8>, pos: int) -> bool {
        0 <= pos && pos + 16 <= data.len()
    }

    open spec fn read_rel(data: Seq<u8>, pos: int, v: i128, end: int) -> bool {
        0 <= pos && pos + 16 <= data.len() && v == sign_extend(nat_from_be(data.subrange(pos, pos + 16)), 16) as i128 && end == pos + 16
    }

    proof fn lemma_read_bounds(data: Seq<u8>, pos: int) {
    }

    fn read(buf: &mut ByteReader) -> (r: Result<i128, BinaryError>) {
        match buf.read_i128() {
            Ok(x) => Ok(x),
            Err(e) => Err(e),
        }
    }
}

impl Writer for i128 {
    open spec fn wire_form(&self) -> Option<Seq<u8>> {
        Some(be_bytes(to_unsigned(*self as int, 16), 16))
    }

    fn write(&self, buf: &mut ByteWriter) -> (r: Result<(), BinaryError>) {
        buf.write_i128(*self)
    }
}

impl Streamable<i128> for i128 {
}

impl Reader<char> for char {
    open spec fn read_some(data: Seq<u8>, pos: int) -> bool {
        0 <= pos && pos + 4 <= data.len() && is_scalar(
            nat_from_be(data.subrange(pos, pos + 4)) as u32,
        )
    }

    open spec fn read_rel(data: Seq<u8>, pos: int, v: char, end: int) -> bool {
        0 <= pos && pos + 4 <= data.len() && is_scalar(
            nat_from_be(data.subrange(pos, pos + 4)) as u32,
        ) && v as u32 == nat_from_be(data.subrange(pos, pos + 4)) as u32 && end == pos + 4
    }

    proof fn lemma_read_bounds(data: Seq<u8>, pos: int) {
    }

    fn read(buf: &mut ByteReader) -> (r: Result<char, BinaryError>) {
        match buf.read_char() {
            Ok(c) => Ok(c),
            Err(e) => Err(e),
        }
    }
}

impl Writer for char {
    open spec fn wire_form(&self) -> Option<Seq<u8>> {
        Some(be_bytes((*self as u32) as nat, 4))
    }

    fn write(&self, buf: &mut ByteWriter) -> (r: Result<(), BinaryError>) {
        buf.write_char(*self)
    }
}

impl Streamable<char> for char {
}

impl Reader<LE<i16>> for LE<i16> {
    open spec fn read_some(data: Seq<u8>, pos: int) -> bool {
        0 <= pos && pos + 2 <= data.len()
    }

    open spec fn read_rel(data: Seq<u8>, pos: int, v: LE<i16>, end: int) -> bool {
        0 <= pos && pos + 2 <= data.len() && v == LE(sign_extend(nat_from_le(data.subrange(pos, pos + 2)), 2) as i16) && end == pos + 2
    }

    proof fn lemma_read_bounds(data: Seq<u8>, pos: int) {
    }

    fn read(buf: &mut ByteReader) -> (r: Result<LE<i16>, BinaryError>) {
        match buf.read_i16_le() {
            Ok(x) => Ok(LE(x)),
            Err(e) => Err(e),
        }
    }
}

impl Writer for LE<i16> {
    open spec fn wire_form(&self) -> Option<Seq<u8>> {
        Some(le_bytes(to_unsigned(self.0 as int, 2), 2))
    }

    fn write(&self, buf: &mut ByteWriter) -> (r: Result<(), BinaryError>) {
        buf.write_i16_le(self.0)
    }
}

impl Streamable<LE<i16>> for LE<i16> {
}

impl Reader<BE<i16>> for BE<i16> {
    open spec fn read_some(data: Seq<u8>, pos: int) -> bool {
        0 <= pos && pos + 2 <= data.len()
    }

    open spec fn read_rel(data: Seq<u8>, pos: int, v: BE<i16>, end: int) -> bool {
        0 <= pos && pos + 2 <= data.len() && v == BE(sign_extend(nat_from_be(data.subrange(pos, pos + 2)), 2) as i16) && end == pos + 2
    }

    proof fn lemma_read_bounds(data: Seq<u8>, pos: int) {
    }

    fn read(buf: &mut ByteReader) -> (r: Result<BE<i16>, BinaryError>) {
        match buf.read_i16() {
            Ok(x) => Ok(BE(x)),
            Err(e) => Err(e),
        }
    }
}

impl Writer for BE<i16> {
    open spec fn wire_form(&self) -> Option<Seq<u8>> {
        Some(be_bytes(to_unsigned(self.0 as int, 2), 2))
    }

    fn write(&self, buf: &mut ByteWriter) -> (r: Result<(), BinaryError>) {
        buf.write_i16(self.0)
    }
}

impl Streamable<BE<i16>> for BE<i16> {
}

impl Reader<LE<i32>> for LE<i32> {
    open spec fn read_some(data: Seq<u8>, pos: int) -> bool {
        0 <= pos && pos + 4 <= data.len()
    }

    open spec fn read_rel(data: Seq<u8>, pos: int, v: LE<i32>, end: int) -> bool {
        0 <= pos && pos + 4 <= data.len() && v == LE(sign_extend(nat_from_le(data.subrange(pos, pos + 4)), 4) as i32) && end == pos + 4
    }

    proof fn lemma_read_bounds(data: Seq<u8>, pos: int) {
    }

    fn read(buf: &mut ByteReader) -> (r: Result<LE<i32>, BinaryError>) {
        match buf.read_i32_le() {
            Ok(x) => Ok(LE(x)),
            Err(e) => Err(e),
        }
    }
}

impl Writer for LE<i32> {
    open spec fn wire_form(&self) -> Option<Seq<u8>> {
        Some(le_bytes(to_unsigned(self.0 as int, 4), 4))
    }

    fn write(&self, buf: &mut ByteWriter) -> (r: Result<(), BinaryError>) {
        buf.write_i32_le(self.0)
    }
}

impl Streamable<LE<i32>> for LE<i32> {
}

impl Reader<BE<i32>> for BE<i32> {
    open spec fn read_some(data: Seq<u8>, pos: int) -> bool {
        0 <= pos && pos + 4 <= data.len()
    }

    open spec fn read_rel(data: Seq<u8>, pos: int, v: BE<i32>, end: int) -> bool {
        0 <= pos && pos + 4 <= data.len() && v == BE(sign_extend(nat_from_be(data.subrange(pos, pos + 4)), 4) as i32) && end == pos + 4
    }

    proof fn lemma_read_bounds(data: Seq<u8>, pos: int) {
    }

    fn read(buf: &mut ByteReader) -> (r: Result<BE<i32>, BinaryError>) {
        match buf.read_i32() {
            Ok(x) => Ok(BE(x)),
            Err(e) => Err(e),
        }
    }
}

impl Writer for BE<i32> {
    open spec fn wire_form(&self) -> Option<Seq<u8>> {
        Some(be_bytes(to_unsigned(self.0 as int, 4), 4))
    }

    fn write(&self, buf: &mut ByteWriter) -> (r: Result<(), BinaryError>) {
        buf.write_i32(self.0)
    }
}

impl Streamable<BE<i32>> for BE<i32> {
}

impl Reader<LE<i64>> for LE<i64> {
    open spec fn read_some(data: Seq<u8>, pos: int) -> bool {
        0 <= pos && pos + 8 <= data.len()
    }

    open spec fn read_rel(data: Seq<u8>, pos: int, v: LE<i64>, end: int) -> bool {
        0 <= pos && pos + 8 <= data.len() && v == LE(sign_extend(nat_from_le(data.subrange(pos, pos + 8)), 8) as i64) && end == pos + 8
    }

    proof fn lemma_read_bounds(data: Seq<u8>, pos: int) {
    }

    fn read(buf: &mut ByteReader) -> (r: Result<LE<i64>, BinaryError>) {
        match buf.read_i64_le() {
            Ok(x) => Ok(LE(x)),
            Err(e) => Err(e),
        }
    }
}

impl Writer for LE<i64> {
    open spec fn wire_form(&self) -> Option<Seq<u8>> {
        Some(le_bytes(to_unsigned(self.0 as int, 8), 8))
    }

    fn write(&self, buf: &mut ByteWriter) -> (r: Result<(), BinaryError>) {
        buf.write_i64_le(self.0)
    }
}

impl Streamable<LE<i64>> for LE<i64> {
}

impl Reader<BE<i64>> for BE<i64> {
    open spec fn read_some(data: Seq<u8>, pos: int) -> bool {
        0 <= pos && pos + 8 <= data.len()
    }

    open spec fn read_rel(data: Seq<u8>, pos: int, v: BE<i64>, end: int) -> bool {
        0 <= pos && pos + 8 <= data.len() && v == BE(sign_extend(nat_from_be(data.subrange(pos, pos + 8)), 8) as i64) && end == pos + 8
    }

    proof fn lemma_read_bounds(data: Seq<u8>, pos: int) {
    }

    fn read(buf: &mut ByteReader) -> (r: Result<BE<i64>, BinaryError>) {
        match buf.read_i64() {
            Ok(x) => Ok(BE(x)),
            Err(e) => Err(e),
        }
    }
}

impl Writer for BE<i64> {
    open spec fn wire_form(&self) -> Option<Seq<u8>> {
        Some(be_bytes(to_unsigned(self.0 as int, 8), 8))
    }

    fn write(&self, buf: &mut ByteWriter) -> (r: Result<(), BinaryError>) {
        buf.write_i64(self.0)
    }
}

impl Streamable<BE<i64>> for BE<i64> {
}

impl Reader<LE<i128>> for LE<i128> {
    open spec fn read_some(data: Seq<u8>, pos: int) -> bool {
        0 <= pos && pos + 16 <= data.len()
    }

    open spec fn read_rel(data: Seq<u8>, pos: int, v: LE<i128>, end: int) -> bool {
        0 <= pos && pos + 16 <= data.len() && v == LE(sign_extend(nat_from_le(data.subrange(pos, pos + 16)), 16) as i128) && end == pos + 16
    }

    proof fn lemma_read_bounds(data: Seq<u8>, pos: int) {
    }

    fn read(buf: &mut ByteReader) -> (r: Result<LE<i128>, BinaryError>) {
        match buf.read_i128_le() {
            Ok(x) => Ok(LE(x)),
            Err(e) => Err(e),
        }
    }
}

impl Writer for LE<i128> {
    open spec fn wire_form(&self) -> Option<Seq<u8>> {
        Some(le_bytes(to_unsigned(self.0 as int, 16), 16))
    }

    fn write(&self, buf: &mut ByteWriter) -> (r: Result<(), BinaryError>) {
        buf.write_i128_le(self.0)
    }
}

impl Streamable<LE<i128>> for LE<i128> {
}

impl Reader<BE<i128>> for BE<i128> {
    open spec fn read_some(data: Seq<u8>, pos: int) -> bool {
        0 <= pos && pos + 16 <= data.len()
    }

    open spec fn read_rel(data: Seq<u8>, pos: int, v: BE<i128>, end: int) -> bool {
        0 <= pos && pos + 16 <= data.len() && v == BE(sign_extend(nat_from_be(data.subrange(pos, pos + 16)), 16) as i128) && end == pos + 16
    }

    proof fn lemma_read_bounds(data: Seq<u8>, pos: int) {
    }

    fn read(buf: &mut ByteReader) -> (r: Result<BE<i128>, BinaryError>) {
        match buf.read_i128() {
            Ok(x) => Ok(BE(x)),
            Err(e) => Err(e),
        }
    }
}

impl Writer for BE<i128> {
    open spec fn wire_form(&self) -> Option<Seq<u8>> {
        Some(be_bytes(to_unsigned(self.0 as int, 16), 16))
    }

    fn write(&self, buf: &mut ByteWriter) -> (r: Result<(), BinaryError>) {
        buf.write_i128(self.0)
    }
}

impl Streamable<BE<i128>> for BE<i128> {
}

impl Reader<LE<u24>> for LE<u24> {
    open spec fn read_some(data: Seq<u8>, pos: int) -> bool {
        0 <= pos && pos + 3 <= data.len()
    }

    open spec fn read_rel(data: Seq<u8>, pos: int, v: LE<u24>, end: int) -> bool {
        0 <= pos && pos + 3 <= data.len() && v == LE(u24(nat_from_le(data.subrange(pos, pos + 3)) as u32)) && end == pos + 3
    }

    proof fn lemma_read_bounds(data: Seq<u8>, pos: int) {
    }

    fn read(buf: &mut ByteReader) -> (r: Result<LE<u24>, BinaryError>) {
        match buf.read_u24_le() {
            Ok(x) => Ok(LE(u24(x))),
            Err(e) => Err(e),
        }
    }
}

impl Writer for LE<u24> {
    open spec fn wire_form(&self) -> Option<Seq<u8>> {
        Some(le_bytes((self.0).0 as nat % pow256(3), 3))
    }

    fn write(&self, buf: &mut ByteWriter) -> (r: Result<(), BinaryError>) {
        buf.write_u24_le((self.0).0)
    }
}

impl Streamable<LE<u24>> for LE<u24> {
}

impl Reader<BE<u24>> for BE<u24> {
    open spec fn read_some(data: Seq<u8>, pos: int) -> bool {
        0 <= pos && pos + 3 <= data.len()
    }

    open spec fn read_rel(data: Seq<u8>, pos: int, v: BE<u24>, end: int) -> bool {
        0 <= pos && pos + 3 <= data.len() && v == BE(u24(nat_from_be(data.subrange(pos, pos + 3)) as u32)) && end == pos + 3
    }

    proof fn lemma_read_bounds(data: Seq<u8>, pos: int) {
    }

    fn read(buf: &mut ByteReader) -> (r: Result<BE<u24>, BinaryError>) {
        match buf.read_u24() {
            Ok(x) => Ok(BE(u24(x))),
            Err(e) => Err(e),
        }
    }
}

impl Writer for BE<u24> {
    open spec fn wire_form(&self) -> Option<Seq<u8>> {
        Some(be_bytes((self.0).0 as nat % pow256(3), 3))
    }

    fn write(&self, buf: &mut ByteWriter) -> (r: Result<(), BinaryError>) {
        buf.write_u24((self.0).0)
    }
}

impl Streamable<BE<u24>> for BE<u24> {
}

impl Reader<LE<i24>> for LE<i24> {
    open spec fn read_some(data: Seq<u8>, pos: int) -> bool {
        0 <= pos && pos + 3 <= data.len()
    }

    open spec fn read_rel(data: Seq<u8>, pos: int, v: LE<i24>, end: int) -> bool {
        0 <= pos && pos + 3 <= data.len() && v == LE(i24(sign_extend(nat_from_le(data.subrange(pos, pos + 3)), 3) as i32)) && end == pos + 3
    }

    proof fn lemma_read_bounds(data: Seq<u8>, pos: int) {
    }

    fn read(buf: &mut ByteReader) -> (r: Result<LE<i24>, BinaryError>) {
        match buf.read_i24_le() {
            Ok(x) => Ok(LE(i24(x))),
            Err(e) => Err(e),
        }
    }
}

impl Writer for LE<i24> {
    open spec fn wire_form(&self) -> Option<Seq<u8>> {
        if -0x800000 <= (self.0).0 <= 0x7FFFFF {
            Some(le_bytes(to_unsigned((self.0).0 as int, 3), 3))
        } else {
            None
        }
    }

    fn write(&self, buf: &mut ByteWriter) -> (r: Result<(), BinaryError>) {
        if -0x800000 <= (self.0).0 && (self.0).0 <= 0x7FFFFF {
            buf.write_i24_le((self.0).0)
        } else {
            Err(BinaryError::InvalidData)
        }
    }
}

impl Streamable<LE<i24>> for LE<i24> {
}

impl Reader<BE<i24>> for BE<i24> {
    open spec fn read_some(data: Seq<u8>, pos: int) -> bool {
        0 <= pos && pos + 3 <= data.len()
    }

    open spec fn read_rel(data: Seq<u8>, pos: int, v: BE<i24>, end: int) -> bool {
        0 <= pos && pos + 3 <= data.len() && v == BE(i24(sign_extend(nat_from_be(data.subrange(pos, pos + 3)), 3) as i32)) && end == pos + 3
    }

    proof fn lemma_read_bounds(data: Seq<u8>, pos: int) {
    }

    fn read(buf: &mut ByteReader) -> (r: Result<BE<i24>, BinaryError>) {
        match buf.read_i24() {
            Ok(x) => Ok(BE(i24(x))),
            Err(e) => Err(e),
        }
    }
}

impl Writer for BE<i24> {
    open spec fn wire_form(&self) -> Option<Seq<u8>> {
        if -0x800000 <= (self.0).0 <= 0x7FFFFF {
            Some(be_bytes(to_unsigned((self.0).0 as int, 3), 3))
        } else {
            None
        }
    }

    fn write(&self, buf: &mut ByteWriter) -> (r: Result<(), BinaryError>) {
        if -0x800000 <= (self.0).0 && (self.0).0 <= 0x7FFFFF {
            buf.write_i24((self.0).0)
        } else {
            Err(BinaryError::InvalidData)
        }
    }
}

impl Streamable<BE<i24>> for BE<i24> {
}

/// The wire forms of a sequence of values, concatenated in order, when every
/// value has one.
pub open spec fn seq_wire_forms<T: Writer>(s: Seq<T>) -> Option<Seq<u8>>
    decreases s.len(),
{
    if s.len() == 0 {
        Some(Seq::empty())
    } else {
        match (s.first().wire_form(), seq_wire_forms(s.drop_first())) {
            (Some(h), Some(t)) => Some(h + t),
            _ => None,
        }
    }
}

/// Whether `n` successive reads of `T` from `pos` all succeed, wherever each
/// read may stop.
pub open spec fn seq_read_some<T: Reader<T>>(data: Seq<u8>, pos: int, n: nat) -> bool
    decreases n,
{
    n == 0 || (T::read_some(data, pos) && forall|v: T, mid: int|
        #[trigger] T::read_rel(data, pos, v, mid) ==> seq_read_some::<T>(data, mid, (n - 1) as nat))
}

/// Whether successive reads of `T` from `pos` yield exactly the values of
/// `vs`, in order, and stop at `end`.
pub open spec fn seq_read_rel<T: Reader<T>>(data: Seq<u8>, pos: int, vs: Seq<T>, end: int) -> bool
    decreases vs.len(),
{
    if vs.len() == 0 {
        end == pos
    } else {
        exists|mid: int|
            #[trigger] T::read_rel(data, pos, vs.first(), mid) && seq_read_rel::<T>(
                data,
                mid,
                vs.drop_first(),
                end,
            )
    }
}

/// Successive reads stay within the buffer.
pub proof fn lemma_seq_read_bounds<T: Reader<T>>(data: Seq<u8>, pos: int, vs: Seq<T>, end: int)
    requires
        seq_read_rel::<T>(data, pos, vs, end),
        0 <= pos <= data.len(),
    ensures
        pos <= end <= data.len(),
    decreases vs.len(),
{
    if vs.len() > 0 {
        let mid = choose|mid: int|
            #[trigger] T::read_rel(data, pos, vs.first(), mid) && seq_read_rel::<T>(
                data,
                mid,
                vs.drop_first(),
                end,
            );
        T::lemma_read_bounds(data, pos);
        lemma_seq_read_bounds::<T>(data, mid, vs.drop_first(), end);
    }
}

/// Extends a run of successful reads by one more read at its end.
pub proof fn lemma_seq_read_push<T: Reader<T>>(
    data: Seq<u8>,
    pos: int,
    vs: Seq<T>,
    cur: int,
    v: T,
    end: int,
)
    requires
        seq_read_rel::<T>(data, pos, vs, cur),
        T::read_rel(data, cur, v, end),
    ensures
        seq_read_rel::<T>(data, pos, vs.push(v), end),
    decreases vs.len(),
{
    if vs.len() == 0 {
        assert(vs.push(v).first() == v);
        assert(vs.push(v).drop_first() =~= Seq::<T>::empty());
        assert(T::read_rel(data, pos, vs.push(v).first(), end) && seq_read_rel::<T>(
            data,
            end,
            vs.push(v).drop_first(),
            end,
        ));
    } else {
        let mid = choose|mid: int|
            #[trigger] T::read_rel(data, pos, vs.first(), mid) && seq_read_rel::<T>(
                data,
                mid,
                vs.drop_first(),
                cur,
            );
        lemma_seq_read_push::<T>(data, mid, vs.drop_first(), cur, v, end);
        assert(vs.push(v).first() == vs.first());
        assert(vs.push(v).drop_first() =~= vs.drop_first().push(v));
        assert(T::read_rel(data, pos, vs.push(v).first(), mid) && seq_read_rel::<T>(
            data,
            mid,
            vs.push(v).drop_first(),
            end,
        ));
    }
}

impl<T: Reader<T>> Reader<Option<T>> for Option<T> {
    open spec fn read_some(data: Seq<u8>, pos: int) -> bool {
        0 <= pos && pos + 1 <= data.len() && (data[pos] == 0 || T::read_some(data, pos + 1))
    }

    open spec fn read_rel(data: Seq<u8>, pos: int, v: Option<T>, end: int) -> bool {
        0 <= pos && pos + 1 <= data.len() && (match v {
            Some(x) => data[pos] != 0 && T::read_rel(data, pos + 1, x, end),
            None => data[pos] == 0 && end == pos + 1,
        })
    }

    proof fn lemma_read_bounds(data: Seq<u8>, pos: int) {
        T::lemma_read_bounds(data, pos + 1);
        assert forall|v: Option<T>, end: int| #[trigger] Self::read_rel(data, pos, v, end)
            implies 0 <= pos <= end <= data.len() by {
            match v {
                Some(x) => {
                    assert(T::read_rel(data, pos + 1, x, end));
                },
                None => {},
            }
        }
    }

    fn read(buf: &mut ByteReader) -> (r: Result<Option<T>, BinaryError>) {
        let present = match buf.read_bool() {
            Ok(b) => b,
            Err(e) => {
                return Err(e);
            },
        };
        if present {
            match T::read(buf) {
                Ok(x) => Ok(Some(x)),
                Err(e) => Err(e),
            }
        } else {
            Ok(None)
        }
    }
}

impl<T: Writer> Writer for Option<T> {
    open spec fn wire_form(&self) -> Option<Seq<u8>> {
        match self {
            Some(x) => (match x.wire_form() {
                Some(b) => Some(seq![bool_byte(true)] + b),
                None => None,
            }),
            None => Some(seq![bool_byte(false)]),
        }
    }

    fn write(&self, buf: &mut ByteWriter) -> (r: Result<(), BinaryError>) {
        match self {
            Some(x) => {
                let _ = buf.write_bool(true);
                match x.write(buf) {
                    Ok(_) => {
                        proof {
                            match x.wire_form() {
                                Some(b) => {
                                    assert(old(buf)@ + seq![bool_byte(true)] + b =~= old(buf)@
                                        + (seq![bool_byte(true)] + b));
                                },
                                None => {},
                            }
                        }
                        Ok(())
                    },
                    Err(e) => Err(e),
                }
            },
            None => buf.write_bool(false),
        }
    }
}

impl<T: Reader<T> + Writer> Streamable<Option<T>> for Option<T> {
}

impl<T: Reader<T>> Reader<Vec<T>> for Vec<T> {
    open spec fn read_some(data: Seq<u8>, pos: int) -> bool {
        match parse_varint(data, pos, 5) {
            VarParse::Done(u, mid) => seq_read_some::<T>(data, mid, (u % 0x100000000) as nat),
            _ => false,
        }
    }

    open spec fn read_rel(data: Seq<u8>, pos: int, v: Vec<T>, end: int) -> bool {
        match parse_varint(data, pos, 5) {
            VarParse::Done(u, mid) => v@.len() == u % 0x100000000 && seq_read_rel::<T>(
                data,
                mid,
                v@,
                end,
            ),
            _ => false,
        }
    }

    proof fn lemma_read_bounds(data: Seq<u8>, pos: int) {
        lemma_parse_varint_bounds(data, pos, 5);
        assert forall|v: Vec<T>, end: int| #[trigger] Self::read_rel(data, pos, v, end)
            implies 0 <= pos <= end <= data.len() by {
            match parse_varint(data, pos, 5) {
                VarParse::Done(u, mid) => {
                    lemma_seq_read_bounds::<T>(data, mid, v@, end);
                },
                _ => {},
            }
        }
    }

    fn read(buf: &mut ByteReader) -> (r: Result<Vec<T>, BinaryError>) {
        let ghost data = old(buf).data();
        let ghost pos0 = old(buf).pos();
        let n = match buf.read_var_u32() {
            Ok(n) => n,
            Err(e) => {
                return Err(e);
            },
        };
        let ghost mid = buf.pos();
        let mut out: Vec<T> = Vec::new();
        let mut i: u32 = 0;
        while i < n
            invariant
                buf.wf(),
                buf.data() == data,
                data == old(buf).data(),
                pos0 == old(buf).pos(),
                parse_varint(data, pos0, 5) matches VarParse::Done(u, m) && u % 0x100000000
                    == n as nat && m == mid,
                i <= n,
                out@.len() == i as nat,
                seq_read_rel::<T>(data, mid, out@, buf.pos()),
                seq_read_some::<T>(data, mid, n as nat) ==> seq_read_some::<T>(
                    data,
                    buf.pos(),
                    (n - i) as nat,
                ),
            decreases n - i,
        {
            let ghost cur = buf.pos();
            match T::read(buf) {
                Ok(x) => {
                    proof {
                        lemma_seq_read_push::<T>(data, mid, out@, cur, x, buf.pos());
                        if seq_read_some::<T>(data, mid, n as nat) {
                            assert(seq_read_some::<T>(data, buf.pos(), (n - i - 1) as nat));
                        }
                    }
                    out.push(x);
                    i = i + 1;
                },
                Err(e) => {
                    proof {
                        if seq_read_some::<T>(data, mid, n as nat) {
                            assert(T::read_some(data, cur));
                        }
                    }
                    return Err(e);
                },
            }
        }
        Ok(out)
    }
}

impl<T: Writer> Writer for Vec<T> {
    open spec fn wire_form(&self) -> Option<Seq<u8>> {
        if self@.len() < 0x100000000 {
            match seq_wire_forms(self@) {
                Some(b) => Some(varint_bytes(self@.len()) + b),
                None => None,
            }
        } else {
            None
        }
    }

    fn write(&self, buf: &mut ByteWriter) -> (r: Result<(), BinaryError>) {
        let n = self.len();
        if (n as u64) >= 0x100000000 {
            return Err(BinaryError::InvalidData);
        }
        let _ = buf.write_var_u32(n as u32);
        proof {
            assert(self@.subrange(0, n as int) =~= self@);
        }
        let mut i: usize = 0;
        while i < n
            invariant
                n == self@.len(),
                n < 0x100000000,
                i <= n,
                match seq_wire_forms(self@.subrange(i as int, n as int)) {
                    Option::Some(t) => (match seq_wire_forms(self@) {
                        Option::Some(b) => buf@ + t == old(buf)@ + varint_bytes(n as nat) + b,
                        Option::None => false,
                    }),
                    Option::None => seq_wire_forms(self@) is None,
                },
            decreases n - i,
        {
            let ghost suf = self@.subrange(i as int, n as int);
            proof {
                assert(suf.first() == self@[i as int]);
                assert(suf.drop_first() =~= self@.subrange(i as int + 1, n as int));
            }
            let ghost buf_pre = buf@;
            let elem = &self[i];
            match elem.write(buf) {
                Ok(_) => {
                    proof {
                        match (elem.wire_form(), seq_wire_forms(suf.drop_first())) {
                            (Some(h), Some(t2)) => {
                                assert(buf_pre + h + t2 =~= buf_pre + (h + t2));
                            },
                            _ => {},
                        }
                    }
                    i = i + 1;
                },
                Err(e) => {
                    return Err(e);
                },
            }
        }
        proof {
            assert(self@.subrange(n as int, n as int) =~= Seq::<T>::empty());
            match seq_wire_forms(self@) {
                Some(b) => {
                    assert(buf@ + Seq::<u8>::empty() =~= buf@);
                    assert(old(buf)@ + varint_bytes(n as nat) + b =~= old(buf)@ + (varint_bytes(
                        n as nat,
                    ) + b));
                },
                None => {},
            }
        }
        Ok(())
    }
}

impl<T: Reader<T> + Writer> Streamable<Vec<T>> for Vec<T> {
}

/// Whether every value of `T` that has a wire form reads back as itself from
/// any buffer carrying that wire form: the element hypothesis of the
/// composite round-trip laws.
pub open spec fn codec_round_trips<T: Reader<T> + Writer>() -> bool {
    forall|v: T, d: Seq<u8>, p: int, e: int|
        (v.wire_form() is Some && 0 <= p && e == p + v.wire_form().unwrap().len() && e <= d.len()
            && d.subrange(p, e) == v.wire_form().unwrap()) ==> #[trigger] T::read_rel(d, p, v, e)
}

/// Successive reads of a sequence's wire forms, laid end to end, yield the
/// sequence itself, provided the element codec round-trips.
pub proof fn lemma_seq_wire_read<T: Reader<T> + Writer>(data: Seq<u8>, pos: int, vs: Seq<T>)
    requires
        codec_round_trips::<T>(),
        seq_wire_forms(vs) is Some,
        0 <= pos,
        pos + seq_wire_forms(vs).unwrap().len() <= data.len(),
        data.subrange(pos, pos + seq_wire_forms(vs).unwrap().len() as int) == seq_wire_forms(
            vs,
        ).unwrap(),
    ensures
        seq_read_rel::<T>(data, pos, vs, pos + seq_wire_forms(vs).unwrap().len()),
    decreases vs.len(),
{
    if vs.len() > 0 {
        let h = vs.first().wire_form().unwrap();
        let t = seq_wire_forms(vs.drop_first()).unwrap();
        let w = seq_wire_forms(vs).unwrap();
        assert(w == h + t);
        crate::wire::lemma_subrange_of_matching(data, pos, w, 0, h.len() as int);
        assert(w.subrange(0, h.len() as int) =~= h);
        assert(T::read_rel(data, pos, vs.first(), pos + h.len()));
        crate::wire::lemma_subrange_of_matching(data, pos, w, h.len() as int, w.len() as int);
        assert(w.subrange(h.len() as int, w.len() as int) =~= t);
        lemma_seq_wire_read::<T>(data, pos + h.len(), vs.drop_first());
        assert(seq_read_rel::<T>(data, pos, vs, pos + w.len() as int));
    }
}

/// The option round-trip law: an option's wire form, placed anywhere in a
/// buffer, reads back as the option itself, provided the payload codec
/// round-trips.
pub proof fn lemma_option_round_trip<T: Reader<T> + Writer>(x: Option<T>, data: Seq<u8>, pos: int)
    requires
        codec_round_trips::<T>(),
        x.wire_form() is Some,
        0 <= pos,
        pos + x.wire_form().unwrap().len() <= data.len(),
        data.subrange(pos, pos + x.wire_form().unwrap().len() as int) == x.wire_form().unwrap(),
    ensures
        <Option<T> as Reader<Option<T>>>::read_rel(
            data,
            pos,
            x,
            pos + x.wire_form().unwrap().len(),
        ),
{
    let w = x.wire_form().unwrap();
    crate::wire::lemma_index_of_matching(data, pos, w, 0);
    match x {
        Some(v) => {
            let b = v.wire_form().unwrap();
            assert(w == seq![bool_byte(true)] + b);
            assert(data[pos] == bool_byte(true));
            crate::wire::lemma_subrange_of_matching(data, pos, w, 1, w.len() as int);
            assert(w.subrange(1, w.len() as int) =~= b);
            assert(T::read_rel(data, pos + 1, v, pos + 1 + b.len()));
        },
        None => {
            assert(w == seq![bool_byte(false)]);
            assert(data[pos] == 0);
        },
    }
}

/// The list round-trip law: a list's wire form, placed anywhere in a buffer,
/// reads back as the list itself, provided the element codec round-trips.
pub proof fn lemma_vec_round_trip<T: Reader<T> + Writer>(x: Vec<T>, data: Seq<u8>, pos: int)
    requires
        codec_round_trips::<T>(),
        x.wire_form() is Some,
        0 <= pos,
        pos + x.wire_form().unwrap().len() <= data.len(),
        data.subrange(pos, pos + x.wire_form().unwrap().len() as int) == x.wire_form().unwrap(),
    ensures
        <Vec<T> as Reader<Vec<T>>>::read_rel(data, pos, x, pos + x.wire_form().unwrap().len()),
{
    let w = x.wire_form().unwrap();
    let b = seq_wire_forms(x@).unwrap();
    let pre = varint_bytes(x@.len());
    assert(w == pre + b);
    crate::wire::lemma_pow128_table();
    crate::wire::lemma_varint_bytes_len(x@.len(), 5);
    crate::wire::lemma_subrange_of_matching(data, pos, w, 0, pre.len() as int);
    assert(w.subrange(0, pre.len() as int) =~= pre);
    crate::wire::lemma_varint_round_trip(x@.len(), data, pos, 5);
    let mid = pos + pre.len();
    crate::wire::lemma_subrange_of_matching(data, pos, w, pre.len() as int, w.len() as int);
    assert(w.subrange(pre.len() as int, w.len() as int) =~= b);
    lemma_seq_wire_read::<T>(data, mid, x@);
}

/// The element hypothesis holds of bytes: a byte's one-byte wire form reads
/// back as the byte.
pub proof fn lemma_u8_round_trips()
    ensures
        codec_round_trips::<u8>(),
{
    assert forall|v: u8, d: Seq<u8>, p: int, e: int|
        (v.wire_form() is Some && 0 <= p && e == p + v.wire_form().unwrap().len() && e <= d.len()
            && d.subrange(p, e) == v.wire_form().unwrap()) implies #[trigger] <u8 as Reader<
        u8,
    >>::read_rel(d, p, v, e) by {
        crate::wire::lemma_index_of_matching(d, p, seq![v], 0);
    }
}

/// The element hypothesis holds of 16-bit integers: the two-byte big-endian
/// wire form reads back as the value.
pub proof fn lemma_u16_round_trips()
    ensures
        codec_round_trips::<u16>(),
{
    assert forall|v: u16, d: Seq<u8>, p: int, e: int|
        (v.wire_form() is Some && 0 <= p && e == p + v.wire_form().unwrap().len() && e <= d.len()
            && d.subrange(p, e) == v.wire_form().unwrap()) implies #[trigger] <u16 as Reader<
        u16,
    >>::read_rel(d, p, v, e) by {
        crate::wire::lemma_be_bytes_len(v as nat, 2);
        crate::wire::lemma_pow256_table();
        crate::wire::lemma_be_round_trip(v as nat, 2);
    }
}

} // verus!
