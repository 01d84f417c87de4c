//! Dynamic record values and the per-scalar wire model.
//!
//! The schema compiler ([`crate::schema`]) works on records held as dynamic
//! values: a [`Value`] is one primitive datum, a [`FieldValue`] is a field's
//! datum (plain, optional or repeated), and a [`RecordValue`] is a whole
//! struct or enum variant.  This module defines those values, their
//! mathematical views, and the wire form and parse of each scalar shape.

use crate::error::BinaryError;
use crate::io::{bool_byte, ByteReader, ByteWriter};
use crate::net::{parse_socket, socket_wire, AddrParse, SocketAddress};
use crate::wire::{
    be_bytes, le_bytes, nat_from_be, nat_from_le, parse_varint, sign_extend, to_unsigned,
    unzigzag, varint_bytes, zigzag, VarParse,
};
use vstd::prelude::*;
use vstd::utf8::{decode_utf8, encode_utf8, is_scalar, valid_utf8};

verus! {

/// The wire shape of one scalar field: which primitive it is and, where it
/// matters, its byte order.
#[derive(Clone, Copy, Debug, PartialEq, Eq, Structural)]
pub enum ScalarType {
    U8,
    I8,
    U16,
    U16Le,
    I16,
    I16Le,
    U24,
    U24Le,
    I24,
    I24Le,
    U32,
    U32Le,
    I32,
    I32Le,
    U64,
    U64Le,
    I64,
    I64Le,
    U128,
    U128Le,
    I128,
    I128Le,
    VarU32,
    VarI32,
    VarU64,
    VarI64,
    Bool,
    Char,
    Str,
    Address,
}

/// A field's declared type: one scalar, an optional scalar, or a
/// length-prefixed list of scalars.
#[derive(Clone, Copy, Debug, PartialEq, Eq, Structural)]
pub enum FieldType {
    Scalar(ScalarType),
    Optional(ScalarType),
    List(ScalarType),
}

/// One primitive datum, held as a host value.  The 24-bit and
/// variable-length shapes share the host representation of their width, so a
/// `U32` value can carry a `U24` or `VarU32` field.
#[derive(Clone, Debug, PartialEq)]
pub enum Value {
    U8(u8),
    I8(i8),
    U16(u16),
    I16(i16),
    U32(u32),
    I32(i32),
    U64(u64),
    I64(i64),
    U128(u128),
    I128(i128),
    Bool(bool),
    Char(char),
    Str(String),
    Addr(SocketAddress),
}

/// The mathematical view of a [`Value`]: strings become character sequences.
pub enum ValueV {
    U8(u8),
    I8(i8),
    U16(u16),
    I16(i16),
    U32(u32),
    I32(i32),
    U64(u64),
    I64(i64),
    U128(u128),
    I128(i128),
    Bool(bool),
    Char(char),
    Str(Seq<char>),
    Addr(SocketAddress),
}

impl View for Value {
    type V = ValueV;

    open spec fn view(&self) -> ValueV {
        match self {
            Value::U8(x) => ValueV::U8(*x),
            Value::I8(x) => ValueV::I8(*x),
            Value::U16(x) => ValueV::U16(*x),
            Value::I16(x) => ValueV::I16(*x),
            Value::U32(x) => ValueV::U32(*x),
            Value::I32(x) => ValueV::I32(*x),
            Value::U64(x) => ValueV::U64(*x),
            Value::I64(x) => ValueV::I64(*x),
            Value::U128(x) => ValueV::U128(*x),
            Value::I128(x) => ValueV::I128(*x),
            Value::Bool(x) => ValueV::Bool(*x),
            Value::Char(x) => ValueV::Char(*x),
            Value::Str(s) => ValueV::Str(s@),
            Value::Addr(a) => ValueV::Addr(*a),
        }
    }
}

/// A field's datum: one scalar, an optional scalar, or a list of scalars.
#[derive(Clone, Debug, PartialEq)]
pub enum FieldValue {
    Scalar(Value),
    Optional(Option<Value>),
    List(Vec<Value>),
}

/// The mathematical view of a [`FieldValue`].
pub enum FieldValueV {
    Scalar(ValueV),
    Optional(Option<ValueV>),
    List(Seq<ValueV>),
}

impl View for FieldValue {
    type V = FieldValueV;

    open spec fn view(&self) -> FieldValueV {
        match self {
            FieldValue::Scalar(v) => FieldValueV::Scalar(v@),
            FieldValue::Optional(o) => match o {
                Some(v) => FieldValueV::Optional(Some(v@)),
                None => FieldValueV::Optional(None),
            },
            FieldValue::List(vs) => FieldValueV::List(Seq::new(vs@.len(), |i: int| vs@[i]@)),
        }
    }
}

/// A whole record value: a struct's fields in declaration order, or an enum
/// variant named by its index together with its payload fields.
#[derive(Clone, Debug, PartialEq)]
pub enum RecordValue {
    Struct(Vec<FieldValue>),
    Variant(usize, Vec<FieldValue>),
}

/// The mathematical view of a [`RecordValue`].
pub enum RecordValueV {
    Struct(Seq<FieldValueV>),
    Variant(int, Seq<FieldValueV>),
}

/// The views of a sequence of field values.
pub open spec fn field_views(vs: Seq<FieldValue>) -> Seq<FieldValueV> {
    Seq::new(vs.len(), |i: int| vs[i]@)
}

impl View for RecordValue {
    type V = RecordValueV;

    open spec fn view(&self) -> RecordValueV {
        match self {
            RecordValue::Struct(fs) => RecordValueV::Struct(field_views(fs@)),
            RecordValue::Variant(k, fs) => RecordValueV::Variant(*k as int, field_views(fs@)),
        }
    }
}

/// The wire form of one scalar value under a scalar type, or `None` when the
/// value does not fit the type: a mismatched shape, a 24-bit value out of
/// range, or a string whose UTF-8 form exceeds the 32-bit length prefix.
pub open spec fn scalar_wire(t: ScalarType, v: ValueV) -> Option<Seq<u8>> {
    match (t, v) {
        (ScalarType::U8, ValueV::U8(x)) => Some(seq![x]),
        (ScalarType::I8, ValueV::I8(x)) => Some(be_bytes(to_unsigned(x as int, 1), 1)),
        (ScalarType::U16, ValueV::U16(x)) => Some(be_bytes(x as nat, 2)),
        (ScalarType::U16Le, ValueV::U16(x)) => Some(le_bytes(x as nat, 2)),
        (ScalarType::I16, ValueV::I16(x)) => Some(be_bytes(to_unsigned(x as int, 2), 2)),
        (ScalarType::I16Le, ValueV::I16(x)) => Some(le_bytes(to_unsigned(x as int, 2), 2)),
        (ScalarType::U24, ValueV::U32(x)) => if x <= 0xFFFFFF {
            Some(be_bytes(x as nat, 3))
        } else {
            None
        },
        (ScalarType::U24Le, ValueV::U32(x)) => if x <= 0xFFFFFF {
            Some(le_bytes(x as nat, 3))
        } else {
            None
        },
        (ScalarType::I24, ValueV::I32(x)) => if -0x800000 <= x <= 0x7FFFFF {
            Some(be_bytes(to_unsigned(x as int, 3), 3))
        } else {
            None
        },
        (ScalarType::I24Le, ValueV::I32(x)) => if -0x800000 <= x <= 0x7FFFFF {
            Some(le_bytes(to_unsigned(x as int, 3), 3))
        } else {
            None
        },
        (ScalarType::U32, ValueV::U32(x)) => Some(be_bytes(x as nat, 4)),
        (ScalarType::U32Le, ValueV::U32(x)) => Some(le_bytes(x as nat, 4)),
        (ScalarType::I32, ValueV::I32(x)) => Some(be_bytes(to_unsigned(x as int, 4), 4)),
        (ScalarType::I32Le, ValueV::I32(x)) => Some(le_bytes(to_unsigned(x as int, 4), 4)),
        (ScalarType::U64, ValueV::U64(x)) => Some(be_bytes(x as nat, 8)),
        (ScalarType::U64Le, ValueV::U64(x)) => Some(le_bytes(x as nat, 8)),
        (ScalarType::I64, ValueV::I64(x)) => Some(be_bytes(to_unsigned(x as int, 8), 8)),
        (ScalarType::I64Le, ValueV::I64(x)) => Some(le_bytes(to_unsigned(x as int, 8), 8)),
        (ScalarType::U128, ValueV::U128(x)) => Some(be_bytes(x as nat, 16)),
        (ScalarType::U128Le, ValueV::U128(x)) => Some(le_bytes(x as nat, 16)),
        (ScalarType::I128, ValueV::I128(x)) => Some(be_bytes(to_unsigned(x as int, 16), 16)),
        (ScalarType::I128Le, ValueV::I128(x)) => Some(le_bytes(to_unsigned(x as int, 16), 16)),
        (ScalarType::VarU32, ValueV::U32(x)) => Some(varint_bytes(x as nat)),
        (ScalarType::VarI32, ValueV::I32(x)) => Some(varint_bytes(zigzag(x as int))),
        (ScalarType::VarU64, ValueV::U64(x)) => Some(varint_bytes(x as nat)),
        (ScalarType::VarI64, ValueV::I64(x)) => Some(varint_bytes(zigzag(x as int))),
        (ScalarType::Bool, ValueV::Bool(b)) => Some(seq![bool_byte(b)]),
        (ScalarType::Char, ValueV::Char(c)) => Some(be_bytes((c as u32) as nat, 4)),
        (ScalarType::Str, ValueV::Str(s)) => if encode_utf8(s).len() < 0x100000000 {
            Some(varint_bytes(encode_utf8(s).len()) + encode_utf8(s))
        } else {
            None
        },
        (ScalarType::Address, ValueV::Addr(a)) => Some(socket_wire(a)),
        _ => None,
    }
}

/// What decoding one scalar yields.
pub enum SParse {
    /// The decoded value and the position just past its last byte.
    Done(ValueV, int),
    /// The data ended before the scalar was complete.
    Eof,
    /// The bytes failed a semantic check: a variable-length integer past its
    /// maximum width, a code point that is no Unicode scalar, malformed
    /// UTF-8, or an unknown address tag.
    Bad,
}

/// Decodes one scalar of shape `t` from `data` at `pos`.
#[verifier::opaque]
pub open spec fn parse_scalar(t: ScalarType, data: Seq<u8>, pos: int) -> SParse {
    match t {
        ScalarType::U8 => if pos + 1 <= data.len() {
            SParse::Done(ValueV::U8(data[pos]), pos + 1)
        } else {
            SParse::Eof
        },
        ScalarType::I8 => if pos + 1 <= data.len() {
            SParse::Done(ValueV::I8(sign_extend(data[pos] as nat, 1) as i8), pos + 1)
        } else {
            SParse::Eof
        },
        ScalarType::U16 => if pos + 2 <= data.len() {
            SParse::Done(ValueV::U16(nat_from_be(data.subrange(pos, pos + 2)) as u16), pos + 2)
        } else {
            SParse::Eof
        },
        ScalarType::U16Le => if pos + 2 <= data.len() {
            SParse::Done(ValueV::U16(nat_from_le(data.subrange(pos, pos + 2)) as u16), pos + 2)
        } else {
            SParse::Eof
        },
        ScalarType::I16 => if pos + 2 <= data.len() {
            SParse::Done(
                ValueV::I16(sign_extend(nat_from_be(data.subrange(pos, pos + 2)), 2) as i16),
                pos + 2,
            )
        } else {
            SParse::Eof
        },
        ScalarType::I16Le => if pos + 2 <= data.len() {
            SParse::Done(
                ValueV::I16(sign_extend(nat_from_le(data.subrange(pos, pos + 2)), 2) as i16),
                pos + 2,
            )
        } else {
            SParse::Eof
        },
        ScalarType::U24 => if pos + 3 <= data.len() {
            SParse::Done(ValueV::U32(nat_from_be(data.subrange(pos, pos + 3)) as u32), pos + 3)
        } else {
            SParse::Eof
        },
        ScalarType::U24Le => if pos + 3 <= data.len() {
            SParse::Done(ValueV::U32(nat_from_le(data.subrange(pos, pos + 3)) as u32), pos + 3)
        } else {
            SParse::Eof
        },
        ScalarType::I24 => if pos + 3 <= data.len() {
            SParse::Done(
                ValueV::I32(sign_extend(nat_from_be(data.subrange(pos, pos + 3)), 3) as i32),
                pos + 3,
            )
        } else {
            SParse::Eof
        },
        ScalarType::I24Le => if pos + 3 <= data.len() {
            SParse::Done(
                ValueV::I32(sign_extend(nat_from_le(data.subrange(pos, pos + 3)), 3) as i32),
                pos + 3,
            )
        } else {
            SParse::Eof
        },
        ScalarType::U32 => if pos + 4 <= data.len() {
            SParse::Done(ValueV::U32(nat_from_be(data.subrange(pos, pos + 4)) as u32), pos + 4)
        } else {
            SParse::Eof
        },
        ScalarType::U32Le => if pos + 4 <= data.len() {
            SParse::Done(ValueV::U32(nat_from_le(data.subrange(pos, pos + 4)) as u32), pos + 4)
        } else {
            SParse::Eof
        },
        ScalarType::I32 => if pos + 4 <= data.len() {
            SParse::Done(
                ValueV::I32(sign_extend(nat_from_be(data.subrange(pos, pos + 4)), 4) as i32),
                pos + 4,
            )
        } else {
            SParse::Eof
        },
        ScalarType::I32Le => if pos + 4 <= data.len() {
            SParse::Done(
                ValueV::I32(sign_extend(nat_from_le(data.subrange(pos, pos + 4)), 4) as i32),
                pos + 4,
            )
        } else {
            SParse::Eof
        },
        ScalarType::U64 => if pos + 8 <= data.len() {
            SParse::Done(ValueV::U64(nat_from_be(data.subrange(pos, pos + 8)) as u64), pos + 8)
        } else {
            SParse::Eof
        },
        ScalarType::U64Le => if pos + 8 <= data.len() {
            SParse::Done(ValueV::U64(nat_from_le(data.subrange(pos, pos + 8)) as u64), pos + 8)
        } else {
            SParse::Eof
        },
        ScalarType::I64 => if pos + 8 <= data.len() {
            SParse::Done(
                ValueV::I64(sign_extend(nat_from_be(data.subrange(pos, pos + 8)), 8) as i64),
                pos + 8,
            )
        } else {
            SParse::Eof
        },
        ScalarType::I64Le => if pos + 8 <= data.len() {
            SParse::Done(
                ValueV::I64(sign_extend(nat_from_le(data.subrange(pos, pos + 8)), 8) as i64),
                pos + 8,
            )
        } else {
            SParse::Eof
        },
        ScalarType::U128 => if pos + 16 <= data.len() {
            SParse::Done(ValueV::U128(nat_from_be(data.subrange(pos, pos + 16)) as u128), pos + 16)
        } else {
            SParse::Eof
        },
        ScalarType::U128Le => if pos + 16 <= data.len() {
            SParse::Done(ValueV::U128(nat_from_le(data.subrange(pos, pos + 16)) as u128), pos + 16)
        } else {
            SParse::Eof
        },
        ScalarType::I128 => if pos + 16 <= data.len() {
            SParse::Done(
                ValueV::I128(sign_extend(nat_from_be(data.subrange(pos, pos + 16)), 16) as i128),
                pos + 16,
            )
        } else {
            SParse::Eof
        },
        ScalarType::I128Le => if pos + 16 <= data.len() {
            SParse::Done(
                ValueV::I128(sign_extend(nat_from_le(data.subrange(pos, pos + 16)), 16) as i128),
                pos + 16,
            )
        } else {
            SParse::Eof
        },
        ScalarType::VarU32 => match parse_varint(data, pos, 5) {
            VarParse::Done(v, end) => SParse::Done(ValueV::U32((v % 0x100000000) as u32), end),
            VarParse::Eof => SParse::Eof,
            VarParse::Overflow => SParse::Bad,
        },
        ScalarType::VarI32 => match parse_varint(data, pos, 5) {
            VarParse::Done(v, end) => SParse::Done(
                ValueV::I32(unzigzag(v % 0x100000000) as i32),
                end,
            ),
            VarParse::Eof => SParse::Eof,
            VarParse::Overflow => SParse::Bad,
        },
        ScalarType::VarU64 => match parse_varint(data, pos, 10) {
            VarParse::Done(v, end) => SParse::Done(
                ValueV::U64((v % 0x10000000000000000) as u64),
                end,
            ),
            VarParse::Eof => SParse::Eof,
            VarParse::Overflow => SParse::Bad,
        },
        ScalarType::VarI64 => match parse_varint(data, pos, 10) {
            VarParse::Done(v, end) => SParse::Done(
                ValueV::I64(unzigzag(v % 0x10000000000000000) as i64),
                end,
            ),
            VarParse::Eof => SParse::Eof,
            VarParse::Overflow => SParse::Bad,
        },
        ScalarType::Bool => if pos + 1 <= data.len() {
            SParse::Done(ValueV::Bool(data[pos] != 0), pos + 1)
        } else {
            SParse::Eof
        },
        ScalarType::Char => if pos + 4 <= data.len() {
            let u = nat_from_be(data.subrange(pos, pos + 4)) as u32;
            if is_scalar(u) {
                SParse::Done(ValueV::Char(u as char), pos + 4)
            } else {
                SParse::Bad
            }
        } else {
            SParse::Eof
        },
        ScalarType::Str => match parse_varint(data, pos, 5) {
            VarParse::Done(v, end) => {
                let n = v % 0x100000000;
                if end + n <= data.len() {
                    if valid_utf8(data.subrange(end, end + n)) {
                        SParse::Done(
                            ValueV::Str(decode_utf8(data.subrange(end, end + n))),
                            end + n,
                        )
                    } else {
                        SParse::Bad
                    }
                } else {
                    SParse::Eof
                }
            },
            VarParse::Eof => SParse::Eof,
            VarParse::Overflow => SParse::Bad,
        },
        ScalarType::Address => match parse_socket(data, pos) {
            AddrParse::Done(a, end) => SParse::Done(ValueV::Addr(a), end),
            AddrParse::Eof => SParse::Eof,
            AddrParse::Bad => SParse::Bad,
        },
    }
}

/// Appends the wire form of `v` as a scalar of shape `t`; a value that does
/// not fit the shape fails with `InvalidData` and writes nothing.
pub fn write_scalar(t: ScalarType, v: &Value, w: &mut ByteWriter) -> (r: Result<(), BinaryError>)
    ensures
        match scalar_wire(t, v@) {
            Some(b) => r == Ok::<(), BinaryError>(()) && final(w)@ == old(w)@ + b,
            None => r == Err::<(), BinaryError>(BinaryError::InvalidData) && final(w)@ == old(w)@,
        },
{
    match (t, v) {
        (ScalarType::U8, Value::U8(x)) => {
            let _ = w.write_u8(*x);
            assert(w@ =~= old(w)@ + seq![*x]);
            Ok(())
        },
        (ScalarType::I8, Value::I8(x)) => w.write_i8(*x),
        (ScalarType::U16, Value::U16(x)) => w.write_u16(*x),
        (ScalarType::U16Le, Value::U16(x)) => w.write_u16_le(*x),
        (ScalarType::I16, Value::I16(x)) => w.write_i16(*x),
        (ScalarType::I16Le, Value::I16(x)) => w.write_i16_le(*x),
        (ScalarType::U24, Value::U32(x)) => {
            if *x <= 0xFFFFFF {
                proof {
                    crate::wire::lemma_pow256_table();
                    crate::wire::lemma_be_bytes_low(*x as nat, 3);
                }
                w.write_u24(*x)
            } else {
                Err(BinaryError::InvalidData)
            }
        },
        (ScalarType::U24Le, Value::U32(x)) => {
            if *x <= 0xFFFFFF {
                proof {
                    crate::wire::lemma_pow256_table();
                    crate::wire::lemma_le_bytes_low(*x as nat, 3);
                }
                w.write_u24_le(*x)
            } else {
                Err(BinaryError::InvalidData)
            }
        },
        (ScalarType::I24, Value::I32(x)) => {
            if -0x800000 <= *x && *x <= 0x7FFFFF {
                w.write_i24(*x)
            } else {
                Err(BinaryError::InvalidData)
            }
        },
        (ScalarType::I24Le, Value::I32(x)) => {
            if -0x800000 <= *x && *x <= 0x7FFFFF {
                w.write_i24_le(*x)
            } else {
                Err(BinaryError::InvalidData)
            }
        },
        (ScalarType::U32, Value::U32(x)) => w.write_u32(*x),
        (ScalarType::U32Le, Value::U32(x)) => w.write_u32_le(*x),
        (ScalarType::I32, Value::I32(x)) => w.write_i32(*x),
        (ScalarType::I32Le, Value::I32(x)) => w.write_i32_le(*x),
        (ScalarType::U64, Value::U64(x)) => w.write_u64(*x),
        (ScalarType::U64Le, Value::U64(x)) => w.write_u64_le(*x),
        (ScalarType::I64, Value::I64(x)) => w.write_i64(*x),
        (ScalarType::I64Le, Value::I64(x)) => w.write_i64_le(*x),
        (ScalarType::U128, Value::U128(x)) => w.write_u128(*x),
        (ScalarType::U128Le, Value::U128(x)) => w.write_u128_le(*x),
        (ScalarType::I128, Value::I128(x)) => w.write_i128(*x),
        (ScalarType::I128Le, Value::I128(x)) => w.write_i128_le(*x),
        (ScalarType::VarU32, Value::U32(x)) => w.write_var_u32(*x),
        (ScalarType::VarI32, Value::I32(x)) => w.write_var_i32(*x),
        (ScalarType::VarU64, Value::U64(x)) => w.write_var_u64(*x),
        (ScalarType::VarI64, Value::I64(x)) => w.write_var_i64(*x),
        (ScalarType::Bool, Value::Bool(b)) => w.write_bool(*b),
        (ScalarType::Char, Value::Char(c)) => w.write_char(*c),
        (ScalarType::Str, Value::Str(s)) => {
            let bytes = s.as_str().as_bytes();
            if (bytes.len() as u64) < 0x100000000 {
                w.write_string(s.as_str())
            } else {
                Err(BinaryError::InvalidData)
            }
        },
        (ScalarType::Address, Value::Addr(a)) => a.write(w),
        _ => Err(BinaryError::InvalidData),
    }
}

/// Decodes one scalar of shape `t`; on failure the cursor is left unchanged.
pub fn read_scalar(t: ScalarType, r: &mut ByteReader) -> (res: Result<Value, BinaryError>)
    requires
        old(r).wf(),
    ensures
        final(r).wf(),
        final(r).data() == old(r).data(),
        match parse_scalar(t, old(r).data(), old(r).pos()) {
            SParse::Done(mv, end) => res matches Ok(v) && v@ == mv && final(r).pos() == end,
            SParse::Eof => res == Err::<Value, BinaryError>(BinaryError::UnexpectedEof)
                && final(r).pos() == old(r).pos(),
            SParse::Bad => res == Err::<Value, BinaryError>(BinaryError::InvalidData)
                && final(r).pos() == old(r).pos(),
        },
{
    proof {
        reveal(parse_scalar);
    }
    match t {
        ScalarType::VarU32 => match r.read_var_u32() {
            Ok(x) => Ok(Value::U32(x)),
            Err(e) => Err(e),
        },
        ScalarType::VarI32 => match r.read_var_i32() {
            Ok(x) => Ok(Value::I32(x)),
            Err(e) => Err(e),
        },
        ScalarType::VarU64 => match r.read_var_u64() {
            Ok(x) => Ok(Value::U64(x)),
            Err(e) => Err(e),
        },
        ScalarType::VarI64 => match r.read_var_i64() {
            Ok(x) => Ok(Value::I64(x)),
            Err(e) => Err(e),
        },
        ScalarType::Bool => match r.read_bool() {
            Ok(x) => Ok(Value::Bool(x)),
            Err(e) => Err(e),
        },
        ScalarType::Char => {
            match r.read_char() {
                Ok(c) => {
                    proof {
                        let u = nat_from_be(old(r).chunk(4)) as u32;
                        vstd::utf8::char_u32_cast(c, u);
                    }
                    Ok(Value::Char(c))
                },
                Err(e) => Err(e),
            }
        },
        ScalarType::Str => match r.read_string() {
            Ok(s) => Ok(Value::Str(s)),
            Err(e) => Err(e),
        },
        ScalarType::Address => match SocketAddress::read(r) {
            Ok(a) => Ok(Value::Addr(a)),
            Err(e) => Err(e),
        },
        _ => read_scalar_fixed(t, r),
    }
}

/// Decodes one fixed-width integer scalar; the variable-length and composite
/// shapes are handled by [`read_scalar`] itself.
#[verifier::spinoff_prover]
#[verifier::rlimit(60)]
fn read_scalar_fixed(t: ScalarType, r: &mut ByteReader) -> (res: Result<Value, BinaryError>)
    requires
        old(r).wf(),
        !(t is VarU32 || t is VarI32 || t is VarU64 || t is VarI64 || t is Bool || t is Char
            || t is Str || t is Address),
    ensures
        final(r).wf(),
        final(r).data() == old(r).data(),
        match parse_scalar(t, old(r).data(), old(r).pos()) {
            SParse::Done(mv, end) => res matches Ok(v) && v@ == mv && final(r).pos() == end,
            SParse::Eof => res == Err::<Value, BinaryError>(BinaryError::UnexpectedEof)
                && final(r).pos() == old(r).pos(),
            SParse::Bad => res == Err::<Value, BinaryError>(BinaryError::InvalidData)
                && final(r).pos() == old(r).pos(),
        },
{
    proof {
        reveal(parse_scalar);
    }
    match t {
        ScalarType::U8 => match r.read_u8() {
            Ok(x) => Ok(Value::U8(x)),
            Err(e) => Err(e),
        },
        ScalarType::I8 => match r.read_i8() {
            Ok(x) => Ok(Value::I8(x)),
            Err(e) => Err(e),
        },
        ScalarType::U16 => match r.read_u16() {
            Ok(x) => Ok(Value::U16(x)),
            Err(e) => Err(e),
        },
        ScalarType::U16Le => match r.read_u16_le() {
            Ok(x) => Ok(Value::U16(x)),
            Err(e) => Err(e),
        },
        ScalarType::I16 => match r.read_i16() {
            Ok(x) => Ok(Value::I16(x)),
            Err(e) => Err(e),
        },
        ScalarType::I16Le => match r.read_i16_le() {
            Ok(x) => Ok(Value::I16(x)),
            Err(e) => Err(e),
        },
        ScalarType::U24 => match r.read_u24() {
            Ok(x) => Ok(Value::U32(x)),
            Err(e) => Err(e),
        },
        ScalarType::U24Le => match r.read_u24_le() {
            Ok(x) => Ok(Value::U32(x)),
            Err(e) => Err(e),
        },
        ScalarType::I24 => match r.read_i24() {
            Ok(x) => Ok(Value::I32(x)),
            Err(e) => Err(e),
        },
        ScalarType::I24Le => match r.read_i24_le() {
            Ok(x) => Ok(Value::I32(x)),
            Err(e) => Err(e),
        },
        ScalarType::U32 => match r.read_u32() {
            Ok(x) => Ok(Value::U32(x)),
            Err(e) => Err(e),
        },
        ScalarType::U32Le => match r.read_u32_le() {
            Ok(x) => Ok(Value::U32(x)),
            Err(e) => Err(e),
        },
        ScalarType::I32 => match r.read_i32() {
            Ok(x) => Ok(Value::I32(x)),
            Err(e) => Err(e),
        },
        ScalarType::I32Le => match r.read_i32_le() {
            Ok(x) => Ok(Value::I32(x)),
            Err(e) => Err(e),
        },
        ScalarType::U64 => match r.read_u64() {
            Ok(x) => Ok(Value::U64(x)),
            Err(e) => Err(e),
        },
        ScalarType::U64Le => match r.read_u64_le() {
            Ok(x) => Ok(Value::U64(x)),
            Err(e) => Err(e),
        },
        ScalarType::I64 => match r.read_i64() {
            Ok(x) => Ok(Value::I64(x)),
            Err(e) => Err(e),
        },
        ScalarType::I64Le => match r.read_i64_le() {
            Ok(x) => Ok(Value::I64(x)),
            Err(e) => Err(e),
        },
        ScalarType::U128 => match r.read_u128() {
            Ok(x) => Ok(Value::U128(x)),
            Err(e) => Err(e),
        },
        ScalarType::U128Le => match r.read_u128_le() {
            Ok(x) => Ok(Value::U128(x)),
            Err(e) => Err(e),
        },
        ScalarType::I128 => match r.read_i128() {
            Ok(x) => Ok(Value::I128(x)),
            Err(e) => Err(e),
        },
        ScalarType::I128Le => match r.read_i128_le() {
            Ok(x) => Ok(Value::I128(x)),
            Err(e) => Err(e),
        },
        _ => vstd::pervasive::unreached(),
    }
}

} // verus!
