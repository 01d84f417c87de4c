//! The runtime encode and decode procedures for compiled records.
//!
//! For each field in declaration order the directive resolver's decision is
//! reproduced byte for byte: plain fields are written and read
//! unconditionally, skipped fields never touch the wire and decode to their
//! type's default, and conditional fields are written unwrapped exactly when
//! their directive's condition holds over the sibling fields.  The whole
//! format is specified by [`record_wire`] and [`record_parse`], and
//! [`lemma_record_round_trip`] proves that decoding an encoding returns the
//! record.

use crate::error::BinaryError;
use crate::io::{ByteReader, ByteWriter};
use crate::record::{
    field_views, parse_scalar, read_scalar, scalar_wire, write_scalar, FieldType, FieldValue,
    FieldValueV, RecordValue, RecordValueV, SParse, ScalarType, Value, ValueV,
};
use crate::schema::{
    compiled_field_wf, compiled_fields_wf, compiled_wf, payload_shaped, pred_wf, repr_max,
    repr_min, repr_size, CompiledDirective, CompiledField, CompiledPred, CompiledRecord,
    CompiledVariant, ReprType,
};
use crate::net::SocketAddress;
use crate::wire::{be_bytes, nat_from_be, sign_extend, to_unsigned, varint_bytes};
use vstd::prelude::*;

verus! {

/// The views of a sequence of scalar values.
pub open spec fn value_views(vs: Seq<Value>) -> Seq<ValueV> {
    Seq::new(vs.len(), |i: int| vs[i]@)
}

/// The unsigned numeric reading of a field, for predicate comparison.
pub open spec fn uint_of(v: FieldValueV) -> Option<nat> {
    match v {
        FieldValueV::Scalar(s) => match s {
            ValueV::U8(x) => Some(x as nat),
            ValueV::U16(x) => Some(x as nat),
            ValueV::U32(x) => Some(x as nat),
            ValueV::U64(x) => Some(x as nat),
            ValueV::U128(x) => Some(x as nat),
            _ => None,
        },
        _ => None,
    }
}

/// The signed numeric reading of a field, for predicate comparison.
pub open spec fn sint_of(v: FieldValueV) -> Option<int> {
    match v {
        FieldValueV::Scalar(s) => match s {
            ValueV::I8(x) => Some(x as int),
            ValueV::I16(x) => Some(x as int),
            ValueV::I32(x) => Some(x as int),
            ValueV::I64(x) => Some(x as int),
            ValueV::I128(x) => Some(x as int),
            _ => None,
        },
        _ => None,
    }
}

/// The boolean reading of a field, for predicate evaluation.
pub open spec fn bool_of(v: FieldValueV) -> Option<bool> {
    match v {
        FieldValueV::Scalar(s) => match s {
            ValueV::Bool(b) => Some(b),
            _ => None,
        },
        _ => None,
    }
}

/// Evaluates a resolved predicate over the record's fields; `None` reports a
/// reference that is out of range or of the wrong shape.
pub open spec fn eval_pred(p: CompiledPred, vals: Seq<FieldValueV>) -> Option<bool>
    decreases p,
{
    match p {
        CompiledPred::Const(b) => Some(b),
        CompiledPred::Field(j) => if 0 <= j < vals.len() {
            bool_of(vals[j as int])
        } else {
            None
        },
        CompiledPred::EqUint(j, k) => if 0 <= j < vals.len() {
            match uint_of(vals[j as int]) {
                Some(u) => Some(u == k as nat),
                None => None,
            }
        } else {
            None
        },
        CompiledPred::EqInt(j, k) => if 0 <= j < vals.len() {
            match sint_of(vals[j as int]) {
                Some(u) => Some(u == k as int),
                None => None,
            }
        } else {
            None
        },
        CompiledPred::And(a, b) => match (eval_pred(*a, vals), eval_pred(*b, vals)) {
            (Some(x), Some(y)) => Some(x && y),
            _ => None,
        },
        CompiledPred::Or(a, b) => match (eval_pred(*a, vals), eval_pred(*b, vals)) {
            (Some(x), Some(y)) => Some(x || y),
            _ => None,
        },
        CompiledPred::Not(a) => match eval_pred(*a, vals) {
            Some(x) => Some(!x),
            None => None,
        },
    }
}

/// The default a skipped field decodes to: zero, false, the NUL character,
/// the empty string, the all-zero IPv4 address, an absent optional, an empty
/// list.
pub open spec fn default_scalar(t: ScalarType) -> ValueV {
    match t {
        ScalarType::U8 => ValueV::U8(0),
        ScalarType::I8 => ValueV::I8(0),
        ScalarType::U16 => ValueV::U16(0),
        ScalarType::U16Le => ValueV::U16(0),
        ScalarType::I16 => ValueV::I16(0),
        ScalarType::I16Le => ValueV::I16(0),
        ScalarType::U24 => ValueV::U32(0),
        ScalarType::U24Le => ValueV::U32(0),
        ScalarType::I24 => ValueV::I32(0),
        ScalarType::I24Le => ValueV::I32(0),
        ScalarType::U32 => ValueV::U32(0),
        ScalarType::U32Le => ValueV::U32(0),
        ScalarType::I32 => ValueV::I32(0),
        ScalarType::I32Le => ValueV::I32(0),
        ScalarType::U64 => ValueV::U64(0),
        ScalarType::U64Le => ValueV::U64(0),
        ScalarType::I64 => ValueV::I64(0),
        ScalarType::I64Le => ValueV::I64(0),
        ScalarType::U128 => ValueV::U128(0),
        ScalarType::U128Le => ValueV::U128(0),
        ScalarType::I128 => ValueV::I128(0),
        ScalarType::I128Le => ValueV::I128(0),
        ScalarType::VarU32 => ValueV::U32(0),
        ScalarType::VarI32 => ValueV::I32(0),
        ScalarType::VarU64 => ValueV::U64(0),
        ScalarType::VarI64 => ValueV::I64(0),
        ScalarType::Bool => ValueV::Bool(false),
        ScalarType::Char => ValueV::Char('\0'),
        ScalarType::Str => ValueV::Str(Seq::empty()),
        ScalarType::Address => ValueV::Addr(SocketAddress::V4 { ip: (0, 0, 0, 0), port: 0 }),
    }
}

/// The default of a whole field.
pub open spec fn default_field(t: FieldType) -> FieldValueV {
    match t {
        FieldType::Scalar(s) => FieldValueV::Scalar(default_scalar(s)),
        FieldType::Optional(_) => FieldValueV::Optional(None),
        FieldType::List(_) => FieldValueV::List(Seq::empty()),
    }
}

/// The concatenated wire forms of a list's elements.
pub open spec fn list_wire_elems(t: ScalarType, vs: Seq<ValueV>) -> Option<Seq<u8>>
    decreases vs.len(),
{
    if vs.len() == 0 {
        Some(Seq::empty())
    } else {
        match (scalar_wire(t, vs[0]), list_wire_elems(t, vs.drop_first())) {
            (Some(h), Some(tl)) => Some(h + tl),
            _ => None,
        }
    }
}

/// The wire form of an unconditioned field: a scalar bare, an optional as a
/// presence byte plus the value, a list as a count prefix plus the elements.
pub open spec fn field_wire_plain(ft: FieldType, v: FieldValueV) -> Option<Seq<u8>> {
    match (ft, v) {
        (FieldType::Scalar(t), FieldValueV::Scalar(sv)) => scalar_wire(t, sv),
        (FieldType::Optional(t), FieldValueV::Optional(o)) => match o {
            Some(sv) => match scalar_wire(t, sv) {
                Some(b) => Some(seq![1u8] + b),
                None => None,
            },
            None => Some(seq![0u8]),
        },
        (FieldType::List(t), FieldValueV::List(vs)) => if vs.len() < 0x100000000 {
            match list_wire_elems(t, vs) {
                Some(b) => Some(varint_bytes(vs.len()) + b),
                None => None,
            }
        } else {
            None
        },
        _ => None,
    }
}

/// The wire form of a conditional field written unwrapped: the field must be
/// an optional holding a value.
pub open spec fn inner_wire(ft: FieldType, v: FieldValueV) -> Option<Seq<u8>> {
    match (ft, v) {
        (FieldType::Optional(t), FieldValueV::Optional(o)) => match o {
            Some(sv) => scalar_wire(t, sv),
            None => None,
        },
        _ => None,
    }
}

/// The wire fragment one field contributes, under its directive.
pub open spec fn frag_wire(f: CompiledField, vals: Seq<FieldValueV>, i: int) -> Option<Seq<u8>> {
    if !(0 <= i < vals.len()) {
        None
    } else {
        match f.directive {
            CompiledDirective::Plain => field_wire_plain(f.ty, vals[i]),
            CompiledDirective::Skip => Some(Seq::empty()),
            CompiledDirective::Require(j) => if 0 <= j < vals.len() {
                match vals[j as int] {
                    FieldValueV::Optional(o) => match o {
                        Some(_) => inner_wire(f.ty, vals[i]),
                        None => None,
                    },
                    _ => None,
                }
            } else {
                None
            },
            CompiledDirective::IfPresent(j) => if 0 <= j < vals.len() {
                match vals[j as int] {
                    FieldValueV::Optional(o) => match o {
                        Some(_) => inner_wire(f.ty, vals[i]),
                        None => Some(Seq::empty()),
                    },
                    _ => None,
                }
            } else {
                None
            },
            CompiledDirective::Satisfy(p) => match eval_pred(p, vals) {
                Some(true) => inner_wire(f.ty, vals[i]),
                Some(false) => Some(Seq::empty()),
                None => None,
            },
        }
    }
}

/// The concatenated fragments of the fields from `i` on.
pub open spec fn fields_wire(fs: Seq<CompiledField>, vals: Seq<FieldValueV>, i: int) -> Option<
    Seq<u8>,
>
    decreases fs.len() - i,
{
    if i < 0 || i >= fs.len() {
        Some(Seq::empty())
    } else {
        match (frag_wire(fs[i], vals, i), fields_wire(fs, vals, i + 1)) {
            (Some(h), Some(tl)) => Some(h + tl),
            _ => None,
        }
    }
}

/// The wire form of an enum discriminant under its representation type.
pub open spec fn repr_wire(rt: ReprType, d: int) -> Seq<u8> {
    be_bytes(to_unsigned(d, repr_size(rt)), repr_size(rt))
}

/// The wire form of a whole record value under a compiled record, or `None`
/// when the value cannot be encoded: a shape mismatch, a conditional field
/// demanded but absent, or a variant index out of range.
pub open spec fn record_wire(c: CompiledRecord, v: RecordValueV) -> Option<Seq<u8>> {
    match (c, v) {
        (CompiledRecord::Struct { fields }, RecordValueV::Struct(vals)) => if vals.len()
            == fields@.len() {
            fields_wire(fields@, vals, 0)
        } else {
            None
        },
        (CompiledRecord::Enum { repr, variants }, RecordValueV::Variant(k, vals)) => if 0 <= k
            < variants@.len() && vals.len() == variants@[k].fields@.len() {
            match fields_wire(variants@[k].fields@, vals, 0) {
                Some(b) => Some(repr_wire(repr, variants@[k].discriminant as int) + b),
                None => None,
            }
        } else {
            None
        },
        _ => None,
    }
}

/// What decoding one field yields.
pub enum FParse {
    /// The decoded field and the position just past its bytes.
    Done(FieldValueV, int),
    /// The data ended inside the field.
    Eof,
    /// The bytes or the directive's condition failed a semantic check.
    Bad,
}

/// What decoding a list's elements yields.
pub enum LParse {
    Done(Seq<ValueV>, int),
    Eof,
    Bad,
}

/// Decodes `n` scalars of shape `t` in sequence.
pub open spec fn list_parse(t: ScalarType, data: Seq<u8>, pos: int, n: nat) -> LParse
    decreases n,
{
    if n == 0 {
        LParse::Done(Seq::empty(), pos)
    } else {
        match parse_scalar(t, data, pos) {
            SParse::Done(v, p) => match list_parse(t, data, p, (n - 1) as nat) {
                LParse::Done(vs, e) => LParse::Done(seq![v] + vs, e),
                LParse::Eof => LParse::Eof,
                LParse::Bad => LParse::Bad,
            },
            SParse::Eof => LParse::Eof,
            SParse::Bad => LParse::Bad,
        }
    }
}

/// Decodes an unconditioned field.
pub open spec fn field_parse_plain(ft: FieldType, data: Seq<u8>, pos: int) -> FParse {
    match ft {
        FieldType::Scalar(t) => match parse_scalar(t, data, pos) {
            SParse::Done(v, p) => FParse::Done(FieldValueV::Scalar(v), p),
            SParse::Eof => FParse::Eof,
            SParse::Bad => FParse::Bad,
        },
        FieldType::Optional(t) => if pos + 1 <= data.len() {
            if data[pos] != 0 {
                match parse_scalar(t, data, pos + 1) {
                    SParse::Done(v, p) => FParse::Done(FieldValueV::Optional(Some(v)), p),
                    SParse::Eof => FParse::Eof,
                    SParse::Bad => FParse::Bad,
                }
            } else {
                FParse::Done(FieldValueV::Optional(None), pos + 1)
            }
        } else {
            FParse::Eof
        },
        FieldType::List(t) => match crate::wire::parse_varint(data, pos, 5) {
            crate::wire::VarParse::Done(v, end) => match list_parse(
                t,
                data,
                end,
                v % 0x100000000,
            ) {
                LParse::Done(vs, e) => FParse::Done(FieldValueV::List(vs), e),
                LParse::Eof => FParse::Eof,
                LParse::Bad => FParse::Bad,
            },
            crate::wire::VarParse::Eof => FParse::Eof,
            crate::wire::VarParse::Overflow => FParse::Bad,
        },
    }
}

/// Decodes a conditional field written unwrapped, binding it present.
pub open spec fn inner_parse(ft: FieldType, data: Seq<u8>, pos: int) -> FParse {
    match ft {
        FieldType::Optional(t) => match parse_scalar(t, data, pos) {
            SParse::Done(v, p) => FParse::Done(FieldValueV::Optional(Some(v)), p),
            SParse::Eof => FParse::Eof,
            SParse::Bad => FParse::Bad,
        },
        _ => FParse::Bad,
    }
}

/// Decodes one field under its directive, with the earlier fields already
/// bound in `vals`.  A conditional field is read unwrapped when its condition
/// holds over the bound siblings and bound absent when it does not; a failed
/// inner decode propagates as an error rather than being mistaken for an
/// absent field.
pub open spec fn frag_parse(f: CompiledField, vals: Seq<FieldValueV>, data: Seq<u8>, pos: int) -> FParse {
    match f.directive {
        CompiledDirective::Plain => field_parse_plain(f.ty, data, pos),
        CompiledDirective::Skip => FParse::Done(default_field(f.ty), pos),
        CompiledDirective::Require(j) => if 0 <= j < vals.len() {
            match vals[j as int] {
                FieldValueV::Optional(o) => match o {
                    Some(_) => inner_parse(f.ty, data, pos),
                    None => FParse::Bad,
                },
                _ => FParse::Bad,
            }
        } else {
            FParse::Bad
        },
        CompiledDirective::IfPresent(j) => if 0 <= j < vals.len() {
            match vals[j as int] {
                FieldValueV::Optional(o) => match o {
                    Some(_) => inner_parse(f.ty, data, pos),
                    None => FParse::Done(FieldValueV::Optional(None), pos),
                },
                _ => FParse::Bad,
            }
        } else {
            FParse::Bad
        },
        CompiledDirective::Satisfy(p) => match eval_pred(p, vals) {
            Some(true) => inner_parse(f.ty, data, pos),
            Some(false) => FParse::Done(FieldValueV::Optional(None), pos),
            None => FParse::Bad,
        },
    }
}

/// What decoding a field list yields.
pub enum FsParse {
    Done(Seq<FieldValueV>, int),
    Eof,
    Bad,
}

/// Decodes the remaining fields, the first `acc.len()` already bound.
pub open spec fn fields_parse(
    fs: Seq<CompiledField>,
    data: Seq<u8>,
    pos: int,
    acc: Seq<FieldValueV>,
) -> FsParse
    decreases fs.len() - acc.len(),
{
    if acc.len() >= fs.len() {
        FsParse::Done(acc, pos)
    } else {
        match frag_parse(fs[acc.len() as int], acc, data, pos) {
            FParse::Done(fv, p) => fields_parse(fs, data, p, acc.push(fv)),
            FParse::Eof => FsParse::Eof,
            FParse::Bad => FsParse::Bad,
        }
    }
}

/// What decoding a discriminant yields.
pub enum DParse {
    Done(int, int),
    Eof,
}

/// Decodes an enum discriminant under its representation type.
pub open spec fn repr_parse(rt: ReprType, data: Seq<u8>, pos: int) -> DParse {
    let n = repr_size(rt) as int;
    if pos + n <= data.len() {
        let u = nat_from_be(data.subrange(pos, pos + n));
        match rt {
            ReprType::U8 => DParse::Done(u as int, pos + n),
            ReprType::U16 => DParse::Done(u as int, pos + n),
            ReprType::U32 => DParse::Done(u as int, pos + n),
            ReprType::U64 => DParse::Done(u as int, pos + n),
            ReprType::U128 => DParse::Done(u as int, pos + n),
            _ => DParse::Done(sign_extend(u, repr_size(rt)), pos + n),
        }
    } else {
        DParse::Eof
    }
}

/// The first variant at or after `i` whose discriminant is `d`.
pub open spec fn find_variant(variants: Seq<CompiledVariant>, d: int, i: int) -> Option<int>
    decreases variants.len() - i,
{
    if i < 0 || i >= variants.len() {
        None
    } else if variants[i].discriminant == d {
        Some(i)
    } else {
        find_variant(variants, d, i + 1)
    }
}

/// What decoding a whole record yields.
pub enum RParse {
    Done(RecordValueV, int),
    Eof,
    Bad,
}

/// Decodes a whole record: a struct's fields in order, or a discriminant
/// matched against the variant set followed by the payload fields.
pub open spec fn record_parse(c: CompiledRecord, data: Seq<u8>, pos: int) -> RParse {
    match c {
        CompiledRecord::Struct { fields } => match fields_parse(fields@, data, pos, Seq::empty()) {
            FsParse::Done(vals, e) => RParse::Done(RecordValueV::Struct(vals), e),
            FsParse::Eof => RParse::Eof,
            FsParse::Bad => RParse::Bad,
        },
        CompiledRecord::Enum { repr, variants } => match repr_parse(repr, data, pos) {
            DParse::Done(d, p) => match find_variant(variants@, d, 0) {
                Some(k) => match fields_parse(variants@[k].fields@, data, p, Seq::empty()) {
                    FsParse::Done(vals, e) => RParse::Done(RecordValueV::Variant(k, vals), e),
                    FsParse::Eof => RParse::Eof,
                    FsParse::Bad => RParse::Bad,
                },
                None => RParse::Bad,
            },
            DParse::Eof => RParse::Eof,
        },
    }
}

/// Evaluates a resolved predicate over the record's fields.
pub fn eval_predicate(p: &CompiledPred, vals: &Vec<FieldValue>) -> (r: Option<bool>)
    ensures
        r == eval_pred(*p, field_views(vals@)),
    decreases *p,
{
    match p {
        CompiledPred::Const(b) => Some(*b),
        CompiledPred::Field(j) => {
            if *j < vals.len() {
                proof {
                    assert(field_views(vals@)[*j as int] == vals@[*j as int]@);
                }
                match &vals[*j] {
                    FieldValue::Scalar(Value::Bool(b)) => Some(*b),
                    _ => None,
                }
            } else {
                None
            }
        },
        CompiledPred::EqUint(j, k) => {
            if *j < vals.len() {
                proof {
                    assert(field_views(vals@)[*j as int] == vals@[*j as int]@);
                }
                match &vals[*j] {
                    FieldValue::Scalar(Value::U8(x)) => Some((*x as u64) == *k),
                    FieldValue::Scalar(Value::U16(x)) => Some((*x as u64) == *k),
                    FieldValue::Scalar(Value::U32(x)) => Some((*x as u64) == *k),
                    FieldValue::Scalar(Value::U64(x)) => Some(*x == *k),
                    FieldValue::Scalar(Value::U128(x)) => Some(*x == (*k as u128)),
                    _ => None,
                }
            } else {
                None
            }
        },
        CompiledPred::EqInt(j, k) => {
            if *j < vals.len() {
                proof {
                    assert(field_views(vals@)[*j as int] == vals@[*j as int]@);
                }
                match &vals[*j] {
                    FieldValue::Scalar(Value::I8(x)) => Some((*x as i64) == *k),
                    FieldValue::Scalar(Value::I16(x)) => Some((*x as i64) == *k),
                    FieldValue::Scalar(Value::I32(x)) => Some((*x as i64) == *k),
                    FieldValue::Scalar(Value::I64(x)) => Some(*x == *k),
                    FieldValue::Scalar(Value::I128(x)) => Some(*x == (*k as i128)),
                    _ => None,
                }
            } else {
                None
            }
        },
        CompiledPred::And(a, b) => {
            let ra = eval_predicate(&**a, vals);
            let rb = eval_predicate(&**b, vals);
            match (ra, rb) {
                (Some(x), Some(y)) => Some(x && y),
                _ => None,
            }
        },
        CompiledPred::Or(a, b) => {
            let ra = eval_predicate(&**a, vals);
            let rb = eval_predicate(&**b, vals);
            match (ra, rb) {
                (Some(x), Some(y)) => Some(x || y),
                _ => None,
            }
        },
        CompiledPred::Not(a) => {
            match eval_predicate(&**a, vals) {
                Some(x) => Some(!x),
                None => None,
            }
        },
    }
}

/// Builds the default value of one scalar shape.
fn default_scalar_value(t: ScalarType) -> (r: Value)
    ensures
        r@ == default_scalar(t),
{
    match t {
        ScalarType::U8 => Value::U8(0),
        ScalarType::I8 => Value::I8(0),
        ScalarType::U16 => Value::U16(0),
        ScalarType::U16Le => Value::U16(0),
        ScalarType::I16 => Value::I16(0),
        ScalarType::I16Le => Value::I16(0),
        ScalarType::U24 => Value::U32(0),
        ScalarType::U24Le => Value::U32(0),
        ScalarType::I24 => Value::I32(0),
        ScalarType::I24Le => Value::I32(0),
        ScalarType::U32 => Value::U32(0),
        ScalarType::U32Le => Value::U32(0),
        ScalarType::I32 => Value::I32(0),
        ScalarType::I32Le => Value::I32(0),
        ScalarType::U64 => Value::U64(0),
        ScalarType::U64Le => Value::U64(0),
        ScalarType::I64 => Value::I64(0),
        ScalarType::I64Le => Value::I64(0),
        ScalarType::U128 => Value::U128(0),
        ScalarType::U128Le => Value::U128(0),
        ScalarType::I128 => Value::I128(0),
        ScalarType::I128Le => Value::I128(0),
        ScalarType::VarU32 => Value::U32(0),
        ScalarType::VarI32 => Value::I32(0),
        ScalarType::VarU64 => Value::U64(0),
        ScalarType::VarI64 => Value::I64(0),
        ScalarType::Bool => Value::Bool(false),
        ScalarType::Char => Value::Char('\0'),
        ScalarType::Str => Value::Str(String::new()),
        ScalarType::Address => Value::Addr(
            SocketAddress::V4 { ip: (0, 0, 0, 0), port: 0 },
        ),
    }
}

/// Builds the default value of one field type.
pub fn default_field_value(t: FieldType) -> (r: FieldValue)
    ensures
        r@ == default_field(t),
{
    match t {
        FieldType::Scalar(s) => FieldValue::Scalar(default_scalar_value(s)),
        FieldType::Optional(_) => FieldValue::Optional(None),
        FieldType::List(_) => {
            let r = FieldValue::List(Vec::new());
            proof {
                assert(r@ matches FieldValueV::List(vs) && vs =~= Seq::<ValueV>::empty());
            }
            r
        },
    }
}

/// Appends the wire form of an unconditioned field.
#[verifier::loop_isolation(false)]
fn write_field_plain(ft: FieldType, v: &FieldValue, w: &mut ByteWriter) -> (r: Result<
    (),
    BinaryError,
>)
    ensures
        match field_wire_plain(ft, v@) {
            Some(b) => r == Ok::<(), BinaryError>(()) && final(w)@ == old(w)@ + b,
            None => r == Err::<(), BinaryError>(BinaryError::InvalidData),
        },
{
    match (ft, v) {
        (FieldType::Scalar(t), FieldValue::Scalar(sv)) => write_scalar(t, sv, w),
        (FieldType::Optional(t), FieldValue::Optional(o)) => {
            match o {
                Some(sv) => {
                    let _ = w.write_u8(1);
                    match write_scalar(t, sv, w) {
                        Ok(_) => {
                            proof {
                                match scalar_wire(t, sv@) {
                                    Some(b) => {
                                        assert(w@ =~= old(w)@ + (seq![1u8] + b));
                                    },
                                    None => {},
                                }
                            }
                            Ok(())
                        },
                        Err(e) => Err(e),
                    }
                },
                None => {
                    let _ = w.write_u8(0);
                    proof {
                        assert(w@ =~= old(w)@ + seq![0u8]);
                    }
                    Ok(())
                },
            }
        },
        (FieldType::List(t), FieldValue::List(vs)) => {
            if (vs.len() as u64) < 0x100000000 {
                let ghost vviews = value_views(vs@);
                proof {
                    assert(v@ matches FieldValueV::List(l) && l == vviews);
                }
                let mut tmp = ByteWriter::new();
                let mut i: usize = 0;
                let n = vs.len();
                proof {
                    assert(vviews.skip(0) =~= vviews);
                    match list_wire_elems(t, vviews) {
                        Some(tl) => {
                            assert(Seq::<u8>::empty() + tl =~= tl);
                        },
                        None => {},
                    }
                }
                while i < n
                    invariant
                        n == vs@.len(),
                        i <= n,
                        match list_wire_elems(t, vviews.skip(i as int)) {
                            Some(tl) => list_wire_elems(t, vviews) == Some(tmp@ + tl),
                            None => list_wire_elems(t, vviews) is None,
                        },
                    decreases n - i,
                {
                    let ghost pre = tmp@;
                    proof {
                        assert(vviews.skip(i as int)[0] == vviews[i as int]);
                        assert(vviews.skip(i as int).drop_first() =~= vviews.skip(i as int + 1));
                        assert(vviews[i as int] == vs@[i as int]@);
                    }
                    match write_scalar(t, &vs[i], &mut tmp) {
                        Ok(_) => {},
                        Err(e) => {
                            return Err(BinaryError::InvalidData);
                        },
                    }
                    proof {
                        match scalar_wire(t, vviews[i as int]) {
                            Some(h) => {
                                match list_wire_elems(t, vviews.skip(i as int + 1)) {
                                    Some(tl) => {
                                        assert(pre + (h + tl) =~= (pre + h) + tl);
                                    },
                                    None => {},
                                }
                            },
                            None => {},
                        }
                    }
                    i = i + 1;
                }
                proof {
                    assert(vviews.skip(n as int) =~= Seq::<ValueV>::empty());
                    assert(list_wire_elems(t, vviews) == Some(tmp@ + Seq::<u8>::empty()));
                    assert(tmp@ + Seq::<u8>::empty() =~= tmp@);
                }
                let _ = w.write_var_u32(vs.len() as u32);
                let _ = w.write(tmp.as_slice());
                proof {
                    assert(w@ =~= old(w)@ + (varint_bytes(vviews.len()) + tmp@));
                }
                Ok(())
            } else {
                Err(BinaryError::InvalidData)
            }
        },
        _ => Err(BinaryError::InvalidData),
    }
}

/// Appends the unwrapped wire form of a conditional field that must be
/// present.
fn write_inner(ft: FieldType, v: &FieldValue, w: &mut ByteWriter) -> (r: Result<(), BinaryError>)
    ensures
        match inner_wire(ft, v@) {
            Some(b) => r == Ok::<(), BinaryError>(()) && final(w)@ == old(w)@ + b,
            None => r == Err::<(), BinaryError>(BinaryError::InvalidData),
        },
{
    match (ft, v) {
        (FieldType::Optional(t), FieldValue::Optional(o)) => match o {
            Some(sv) => write_scalar(t, sv, w),
            None => Err(BinaryError::InvalidData),
        },
        _ => Err(BinaryError::InvalidData),
    }
}

/// Appends the wire fragment of field `i` under its directive.
fn write_frag(f: &CompiledField, vals: &Vec<FieldValue>, i: usize, w: &mut ByteWriter) -> (r:
    Result<(), BinaryError>)
    requires
        i < vals@.len(),
    ensures
        match frag_wire(*f, field_views(vals@), i as int) {
            Some(b) => r == Ok::<(), BinaryError>(()) && final(w)@ == old(w)@ + b,
            None => r == Err::<(), BinaryError>(BinaryError::InvalidData),
        },
{
    proof {
        assert(field_views(vals@)[i as int] == vals@[i as int]@);
    }
    match &f.directive {
        CompiledDirective::Plain => write_field_plain(f.ty, &vals[i], w),
        CompiledDirective::Skip => {
            proof {
                assert(old(w)@ + Seq::<u8>::empty() =~= old(w)@);
            }
            Ok(())
        },
        CompiledDirective::Require(j) => {
            if *j < vals.len() {
                proof {
                    assert(field_views(vals@)[*j as int] == vals@[*j as int]@);
                }
                match &vals[*j] {
                    FieldValue::Optional(o) => match o {
                        Some(_) => write_inner(f.ty, &vals[i], w),
                        None => Err(BinaryError::InvalidData),
                    },
                    _ => Err(BinaryError::InvalidData),
                }
            } else {
                Err(BinaryError::InvalidData)
            }
        },
        CompiledDirective::IfPresent(j) => {
            if *j < vals.len() {
                proof {
                    assert(field_views(vals@)[*j as int] == vals@[*j as int]@);
                }
                match &vals[*j] {
                    FieldValue::Optional(o) => match o {
                        Some(_) => write_inner(f.ty, &vals[i], w),
                        None => {
                            proof {
                                assert(old(w)@ + Seq::<u8>::empty() =~= old(w)@);
                            }
                            Ok(())
                        },
                    },
                    _ => Err(BinaryError::InvalidData),
                }
            } else {
                Err(BinaryError::InvalidData)
            }
        },
        CompiledDirective::Satisfy(p) => {
            match eval_predicate(p, vals) {
                Some(true) => write_inner(f.ty, &vals[i], w),
                Some(false) => {
                    proof {
                        assert(old(w)@ + Seq::<u8>::empty() =~= old(w)@);
                    }
                    Ok(())
                },
                None => Err(BinaryError::InvalidData),
            }
        },
    }
}

/// Appends the fragments of all fields in declaration order.
#[verifier::loop_isolation(false)]
fn encode_fields(fs: &Vec<CompiledField>, vals: &Vec<FieldValue>, w: &mut ByteWriter) -> (r:
    Result<(), BinaryError>)
    requires
        vals@.len() == fs@.len(),
    ensures
        match fields_wire(fs@, field_views(vals@), 0) {
            Some(b) => r == Ok::<(), BinaryError>(()) && final(w)@ == old(w)@ + b,
            None => r == Err::<(), BinaryError>(BinaryError::InvalidData),
        },
{
    let ghost gv = field_views(vals@);
    let ghost mut acc: Seq<u8> = Seq::empty();
    let mut i: usize = 0;
    let n = fs.len();
    proof {
        assert(old(w)@ + acc =~= old(w)@);
    }
    while i < n
        invariant
            n == fs@.len(),
            i <= n,
            w@ == old(w)@ + acc,
            match fields_wire(fs@, gv, i as int) {
                Some(tl) => fields_wire(fs@, gv, 0) == Some(acc + tl),
                None => fields_wire(fs@, gv, 0) is None,
            },
        decreases n - i,
    {
        match write_frag(&fs[i], vals, i, w) {
            Ok(_) => {},
            Err(_) => {
                return Err(BinaryError::InvalidData);
            },
        }
        proof {
            match frag_wire(fs@[i as int], gv, i as int) {
                Some(h) => {
                    match fields_wire(fs@, gv, i as int + 1) {
                        Some(tl) => {
                            assert(acc + (h + tl) =~= (acc + h) + tl);
                        },
                        None => {},
                    }
                    acc = acc + h;
                },
                None => {},
            }
        }
        i = i + 1;
    }
    proof {
        assert(fields_wire(fs@, gv, n as int) == Some(Seq::<u8>::empty()));
        assert(acc + Seq::<u8>::empty() =~= acc);
    }
    Ok(())
}

/// Appends the discriminant under the representation type.
fn write_repr(rt: ReprType, d: i128, w: &mut ByteWriter) -> (r: Result<(), BinaryError>)
    requires
        repr_min(rt) <= d <= repr_max(rt),
    ensures
        r == Ok::<(), BinaryError>(()),
        final(w)@ == old(w)@ + repr_wire(rt, d as int),
{
    match rt {
        ReprType::U8 => {
            let _ = w.write_u8(d as u8);
            proof {
                assert(be_bytes((d as nat) / 256, 0) =~= Seq::<u8>::empty());
                assert(be_bytes(to_unsigned(d as int, 1), 1) =~= seq![d as u8]);
            }
            Ok(())
        },
        ReprType::U16 => w.write_u16(d as u16),
        ReprType::U32 => w.write_u32(d as u32),
        ReprType::U64 => w.write_u64(d as u64),
        ReprType::U128 => w.write_u128(d as u128),
        ReprType::I8 => w.write_i8(d as i8),
        ReprType::I16 => w.write_i16(d as i16),
        ReprType::I32 => w.write_i32(d as i32),
        ReprType::I64 => w.write_i64(d as i64),
        ReprType::I128 => w.write_i128(d),
    }
}

/// Encodes a record value under a compiled record into its wire form.
///
/// Encoding succeeds exactly when [`record_wire`] yields a byte sequence —
/// that is, when the value fits the record's shape and every conditional
/// field obeys its directive — and the returned bytes are that sequence.
pub fn encode_record(c: &CompiledRecord, v: &RecordValue) -> (r: Result<Vec<u8>, BinaryError>)
    requires
        compiled_wf(*c),
    ensures
        match record_wire(*c, v@) {
            Some(b) => r matches Ok(out) && out@ == b,
            None => r == Err::<Vec<u8>, BinaryError>(BinaryError::InvalidData),
        },
{
    match (c, v) {
        (CompiledRecord::Struct { fields }, RecordValue::Struct(vals)) => {
            if vals.len() != fields.len() {
                return Err(BinaryError::InvalidData);
            }
            let mut w = ByteWriter::new();
            match encode_fields(fields, vals, &mut w) {
                Ok(_) => Ok(w.into_vec()),
                Err(e) => Err(e),
            }
        },
        (CompiledRecord::Enum { repr, variants }, RecordValue::Variant(k, vals)) => {
            if *k >= variants.len() {
                return Err(BinaryError::InvalidData);
            }
            if vals.len() != variants[*k].fields.len() {
                return Err(BinaryError::InvalidData);
            }
            let mut w = ByteWriter::new();
            let _ = write_repr(*repr, variants[*k].discriminant, &mut w);
            match encode_fields(&variants[*k].fields, vals, &mut w) {
                Ok(_) => {
                    proof {
                        match fields_wire(variants@[*k as int].fields@, field_views(vals@), 0) {
                            Some(b) => {
                                assert(Seq::<u8>::empty() + repr_wire(
                                    *repr,
                                    variants@[*k as int].discriminant as int,
                                ) + b =~= repr_wire(
                                    *repr,
                                    variants@[*k as int].discriminant as int,
                                ) + b);
                            },
                            None => {},
                        }
                    }
                    Ok(w.into_vec())
                },
                Err(e) => Err(e),
            }
        },
        _ => Err(BinaryError::InvalidData),
    }
}

/// Decodes an unconditioned field.
#[verifier::loop_isolation(false)]
fn read_field_plain(ft: FieldType, r: &mut ByteReader) -> (res: Result<FieldValue, BinaryError>)
    requires
        old(r).wf(),
    ensures
        final(r).wf(),
        final(r).data() == old(r).data(),
        match field_parse_plain(ft, old(r).data(), old(r).pos()) {
            FParse::Done(fv, p) => res matches Ok(v) && v@ == fv && final(r).pos() == p,
            FParse::Eof => res == Err::<FieldValue, BinaryError>(BinaryError::UnexpectedEof),
            FParse::Bad => res == Err::<FieldValue, BinaryError>(BinaryError::InvalidData),
        },
{
    match ft {
        FieldType::Scalar(t) => match read_scalar(t, r) {
            Ok(v) => Ok(FieldValue::Scalar(v)),
            Err(e) => Err(e),
        },
        FieldType::Optional(t) => {
            let present = match r.read_bool() {
                Ok(b) => b,
                Err(e) => {
                    return Err(e);
                },
            };
            if present {
                match read_scalar(t, r) {
                    Ok(v) => Ok(FieldValue::Optional(Some(v))),
                    Err(e) => Err(e),
                }
            } else {
                Ok(FieldValue::Optional(None))
            }
        },
        FieldType::List(t) => {
            let n = match r.read_var_u32() {
                Ok(n) => n,
                Err(e) => {
                    return Err(e);
                },
            };
            let ghost data = r.data();
            let ghost pos1 = r.pos();
            let mut out: Vec<Value> = Vec::new();
            let mut i: usize = 0;
            proof {
                assert(value_views(out@) =~= Seq::<ValueV>::empty());
                match list_parse(t, data, pos1, n as nat) {
                    LParse::Done(vs, e) => {
                        assert(Seq::<ValueV>::empty() + vs =~= vs);
                    },
                    _ => {},
                }
            }
            while i < n as usize
                invariant
                    i <= n as usize,
                    r.wf(),
                    r.data() == data,
                    out@.len() == i,
                    match list_parse(t, data, r.pos() as int, (n as usize - i) as nat) {
                        LParse::Done(vs, e) => list_parse(t, data, pos1, n as nat)
                            == LParse::Done(value_views(out@) + vs, e),
                        LParse::Eof => list_parse(t, data, pos1, n as nat) is Eof,
                        LParse::Bad => list_parse(t, data, pos1, n as nat) is Bad,
                    },
                decreases n as usize - i,
            {
                let ghost pvals = value_views(out@);
                let v = match read_scalar(t, r) {
                    Ok(v) => v,
                    Err(e) => {
                        return Err(e);
                    },
                };
                let ghost gv = v@;
                out.push(v);
                proof {
                    assert(value_views(out@) =~= pvals.push(gv));
                    match list_parse(t, data, r.pos() as int, (n as usize - i - 1) as nat) {
                        LParse::Done(vs, e) => {
                            assert(pvals + (seq![gv] + vs) =~= pvals.push(gv) + vs);
                        },
                        _ => {},
                    }
                }
                i = i + 1;
            }
            proof {
                assert(value_views(out@) + Seq::<ValueV>::empty() =~= value_views(out@));
            }
            Ok(FieldValue::List(out))
        },
    }
}

/// Decodes a conditional field written unwrapped.
fn read_inner(ft: FieldType, r: &mut ByteReader) -> (res: Result<FieldValue, BinaryError>)
    requires
        old(r).wf(),
    ensures
        final(r).wf(),
        final(r).data() == old(r).data(),
        match inner_parse(ft, old(r).data(), old(r).pos()) {
            FParse::Done(fv, p) => res matches Ok(v) && v@ == fv && final(r).pos() == p,
            FParse::Eof => res == Err::<FieldValue, BinaryError>(BinaryError::UnexpectedEof),
            FParse::Bad => res == Err::<FieldValue, BinaryError>(BinaryError::InvalidData),
        },
{
    match ft {
        FieldType::Optional(t) => match read_scalar(t, r) {
            Ok(v) => Ok(FieldValue::Optional(Some(v))),
            Err(e) => Err(e),
        },
        _ => Err(BinaryError::InvalidData),
    }
}

/// Decodes one field under its directive, the earlier fields already bound.
fn read_frag(f: &CompiledField, vals: &Vec<FieldValue>, r: &mut ByteReader) -> (res: Result<
    FieldValue,
    BinaryError,
>)
    requires
        old(r).wf(),
    ensures
        final(r).wf(),
        final(r).data() == old(r).data(),
        match frag_parse(*f, field_views(vals@), old(r).data(), old(r).pos()) {
            FParse::Done(fv, p) => res matches Ok(v) && v@ == fv && final(r).pos() == p,
            FParse::Eof => res == Err::<FieldValue, BinaryError>(BinaryError::UnexpectedEof),
            FParse::Bad => res == Err::<FieldValue, BinaryError>(BinaryError::InvalidData),
        },
{
    match &f.directive {
        CompiledDirective::Plain => read_field_plain(f.ty, r),
        CompiledDirective::Skip => Ok(default_field_value(f.ty)),
        CompiledDirective::Require(j) => {
            if *j < vals.len() {
                proof {
                    assert(field_views(vals@)[*j as int] == vals@[*j as int]@);
                }
                match &vals[*j] {
                    FieldValue::Optional(o) => match o {
                        Some(_) => read_inner(f.ty, r),
                        None => Err(BinaryError::InvalidData),
                    },
                    _ => Err(BinaryError::InvalidData),
                }
            } else {
                Err(BinaryError::InvalidData)
            }
        },
        CompiledDirective::IfPresent(j) => {
            if *j < vals.len() {
                proof {
                    assert(field_views(vals@)[*j as int] == vals@[*j as int]@);
                }
                match &vals[*j] {
                    FieldValue::Optional(o) => match o {
                        Some(_) => read_inner(f.ty, r),
                        None => Ok(FieldValue::Optional(None)),
                    },
                    _ => Err(BinaryError::InvalidData),
                }
            } else {
                Err(BinaryError::InvalidData)
            }
        },
        CompiledDirective::Satisfy(p) => {
            match eval_predicate(p, vals) {
                Some(true) => read_inner(f.ty, r),
                Some(false) => Ok(FieldValue::Optional(None)),
                None => Err(BinaryError::InvalidData),
            }
        },
    }
}

/// Decodes a whole field list in declaration order.
#[verifier::loop_isolation(false)]
fn decode_fields(fs: &Vec<CompiledField>, r: &mut ByteReader) -> (res: Result<
    Vec<FieldValue>,
    BinaryError,
>)
    requires
        old(r).wf(),
    ensures
        final(r).wf(),
        final(r).data() == old(r).data(),
        match fields_parse(fs@, old(r).data(), old(r).pos(), Seq::empty()) {
            FsParse::Done(vals, e) => res matches Ok(out) && field_views(out@) == vals
                && final(r).pos() == e,
            FsParse::Eof => res == Err::<Vec<FieldValue>, BinaryError>(BinaryError::UnexpectedEof),
            FsParse::Bad => res == Err::<Vec<FieldValue>, BinaryError>(BinaryError::InvalidData),
        },
{
    let ghost data = old(r).data();
    let ghost pos0 = old(r).pos();
    let mut out: Vec<FieldValue> = Vec::new();
    let mut i: usize = 0;
    let n = fs.len();
    proof {
        assert(field_views(out@) =~= Seq::<FieldValueV>::empty());
    }
    while i < n
        invariant
            n == fs@.len(),
            i <= n,
            r.wf(),
            r.data() == data,
            out@.len() == i,
            fields_parse(fs@, data, pos0, Seq::empty()) == fields_parse(
                fs@,
                data,
                r.pos() as int,
                field_views(out@),
            ),
        decreases n - i,
    {
        let ghost pvals = field_views(out@);
        let fv = match read_frag(&fs[i], &out, r) {
            Ok(fv) => fv,
            Err(e) => {
                return Err(e);
            },
        };
        let ghost gfv = fv@;
        out.push(fv);
        proof {
            assert(field_views(out@) =~= pvals.push(gfv));
        }
        i = i + 1;
    }
    Ok(out)
}

/// Decodes the discriminant of an enum under its representation type; a
/// value too large for the signed 128-bit host form can match no variant and
/// is reported as invalid data.
fn read_discriminant(rt: ReprType, r: &mut ByteReader) -> (res: Result<i128, BinaryError>)
    requires
        old(r).wf(),
    ensures
        final(r).wf(),
        final(r).data() == old(r).data(),
        match repr_parse(rt, old(r).data(), old(r).pos()) {
            DParse::Done(d, p) => final(r).pos() == p && (if d <= 0x7FFFFFFFFFFFFFFFFFFFFFFFFFFFFFFF {
                res == Ok::<i128, BinaryError>(d as i128)
            } else {
                res == Err::<i128, BinaryError>(BinaryError::InvalidData)
            }),
            DParse::Eof => res == Err::<i128, BinaryError>(BinaryError::UnexpectedEof)
                && final(r).pos() == old(r).pos(),
        },
{
    proof {
        if old(r).remaining_spec() >= repr_size(rt) {
            crate::wire::lemma_nat_from_be_bound(old(r).chunk(repr_size(rt) as int));
            crate::wire::lemma_pow256_table();
        }
    }
    match rt {
        ReprType::U8 => match r.read_u8() {
            Ok(x) => {
                proof {
                    assert(old(r).chunk(1) =~= seq![old(r).data()[old(r).pos()]]);
                }
                Ok(x as i128)
            },
            Err(e) => Err(e),
        },
        ReprType::U16 => match r.read_u16() {
            Ok(x) => Ok(x as i128),
            Err(e) => Err(e),
        },
        ReprType::U32 => match r.read_u32() {
            Ok(x) => Ok(x as i128),
            Err(e) => Err(e),
        },
        ReprType::U64 => match r.read_u64() {
            Ok(x) => Ok(x as i128),
            Err(e) => Err(e),
        },
        ReprType::U128 => match r.read_u128() {
            Ok(x) => {
                if x <= 0x7FFFFFFFFFFFFFFFFFFFFFFFFFFFFFFF {
                    Ok(x as i128)
                } else {
                    Err(BinaryError::InvalidData)
                }
            },
            Err(e) => Err(e),
        },
        ReprType::I8 => match r.read_i8() {
            Ok(x) => {
                proof {
                    assert(old(r).chunk(1) =~= seq![old(r).data()[old(r).pos()]]);
                }
                Ok(x as i128)
            },
            Err(e) => Err(e),
        },
        ReprType::I16 => match r.read_i16() {
            Ok(x) => Ok(x as i128),
            Err(e) => Err(e),
        },
        ReprType::I32 => match r.read_i32() {
            Ok(x) => Ok(x as i128),
            Err(e) => Err(e),
        },
        ReprType::I64 => match r.read_i64() {
            Ok(x) => Ok(x as i128),
            Err(e) => Err(e),
        },
        ReprType::I128 => match r.read_i128() {
            Ok(x) => Ok(x),
            Err(e) => Err(e),
        },
    }
}

/// When no variant carries `d`, the search finds nothing.
proof fn lemma_find_variant_none(variants: Seq<CompiledVariant>, d: int, i: int)
    requires
        forall|k: int| 0 <= k < variants.len() ==> #[trigger] variants[k].discriminant != d,
    ensures
        find_variant(variants, d, i) is None,
    decreases variants.len() - i,
{
    if 0 <= i < variants.len() {
        lemma_find_variant_none(variants, d, i + 1);
    }
}

/// Decodes an enum: a discriminant matched against the variant set, then
/// the payload of the matching variant.
#[verifier::loop_isolation(false)]
#[verifier::rlimit(100)]
#[verifier::spinoff_prover]
fn decode_enum(repr: ReprType, variants: &Vec<CompiledVariant>, r: &mut ByteReader) -> (res:
    Result<RecordValue, BinaryError>)
    requires
        old(r).wf(),
        forall|k: int|
            0 <= k < variants@.len() ==> repr_min(repr) <= #[trigger] variants@[k].discriminant
                <= repr_max(repr),
    ensures
        final(r).wf(),
        final(r).data() == old(r).data(),
        match repr_parse(repr, old(r).data(), old(r).pos()) {
            DParse::Done(d, p) => match find_variant(variants@, d, 0) {
                Some(k) => match fields_parse(variants@[k].fields@, old(r).data(), p, Seq::empty()) {
                    FsParse::Done(vals, e) => res matches Ok(rv) && rv@ == RecordValueV::Variant(
                        k,
                        vals,
                    ) && final(r).pos() == e,
                    FsParse::Eof => res == Err::<RecordValue, BinaryError>(
                        BinaryError::UnexpectedEof,
                    ),
                    FsParse::Bad => res == Err::<RecordValue, BinaryError>(
                        BinaryError::InvalidData,
                    ),
                },
                None => res == Err::<RecordValue, BinaryError>(BinaryError::InvalidData),
            },
            DParse::Eof => res == Err::<RecordValue, BinaryError>(BinaryError::UnexpectedEof),
        },
{
    let d = match read_discriminant(repr, r) {
        Ok(d) => d,
        Err(e) => {
            proof {
                match repr_parse(repr, old(r).data(), old(r).pos()) {
                    DParse::Done(dv, p) => {
                        lemma_find_variant_none(variants@, dv, 0);
                    },
                    DParse::Eof => {},
                }
            }
            return Err(e);
        },
    };
    proof {
        match repr_parse(repr, old(r).data(), old(r).pos()) {
            DParse::Done(dd, p) => {
                crate::wire::lemma_nat_from_be_bound(
                    old(r).data().subrange(old(r).pos(), old(r).pos() + repr_size(repr) as int),
                );
                crate::wire::lemma_pow256_table();
                crate::wire::lemma_pow256_mono(repr_size(repr), 16);
            },
            DParse::Eof => {},
        }
    }
    let mut k: usize = 0;
    let n = variants.len();
    while k < n
        invariant
            n == variants@.len(),
            k <= n,
            r.wf(),
            r.data() == old(r).data(),
            match repr_parse(repr, old(r).data(), old(r).pos()) {
                DParse::Done(dd, p) => dd == d as int && r.pos() == p,
                DParse::Eof => false,
            },
            find_variant(variants@, d as int, 0) == find_variant(variants@, d as int, k as int),
        decreases n - k,
    {
        if variants[k].discriminant == d {
            match decode_fields(&variants[k].fields, r) {
                Ok(out) => {
                    return Ok(RecordValue::Variant(k, out));
                },
                Err(e) => {
                    return Err(e);
                },
            }
        }
        k = k + 1;
    }
    Err(BinaryError::InvalidData)
}

/// Decodes a whole record: the struct's fields, or a discriminant matched
/// against the variant set and the payload of the matching variant.
///
/// Decoding succeeds exactly when [`record_parse`] yields a value, and
/// returns that value; an unknown discriminant fails with `InvalidData`, a
/// truncated buffer with `UnexpectedEof`.
pub fn decode_record(c: &CompiledRecord, r: &mut ByteReader) -> (res: Result<
    RecordValue,
    BinaryError,
>)
    requires
        compiled_wf(*c),
        old(r).wf(),
    ensures
        final(r).wf(),
        final(r).data() == old(r).data(),
        match record_parse(*c, old(r).data(), old(r).pos()) {
            RParse::Done(v, e) => res matches Ok(rv) && rv@ == v && final(r).pos() == e,
            RParse::Eof => res == Err::<RecordValue, BinaryError>(BinaryError::UnexpectedEof),
            RParse::Bad => res == Err::<RecordValue, BinaryError>(BinaryError::InvalidData),
        },
{
    match c {
        CompiledRecord::Struct { fields } => {
            match decode_fields(fields, r) {
                Ok(out) => Ok(RecordValue::Struct(out)),
                Err(e) => Err(e),
            }
        },
        CompiledRecord::Enum { repr, variants } => decode_enum(*repr, variants, r),
    }
}

/// Decoding the wire form of one scalar placed anywhere in a buffer returns
/// the value itself: the scalar round-trip law, for every value its shape can
/// encode.
#[verifier::rlimit(100)]
#[verifier::spinoff_prover]
pub proof fn lemma_scalar_round_trip(t: ScalarType, v: ValueV, data: Seq<u8>, pos: int)
    requires
        scalar_wire(t, v) is Some,
        0 <= pos,
        pos + scalar_wire(t, v).unwrap().len() <= data.len(),
        data.subrange(pos, pos + scalar_wire(t, v).unwrap().len() as int) == scalar_wire(
            t,
            v,
        ).unwrap(),
    ensures
        parse_scalar(t, data, pos) == SParse::Done(v, pos + scalar_wire(t, v).unwrap().len()),
{
    reveal(parse_scalar);
    crate::wire::lemma_pow256_table();
    crate::wire::lemma_pow128_table();
    let w = scalar_wire(t, v).unwrap();
    match (t, v) {
        (ScalarType::VarU32, ValueV::U32(x)) => {
            crate::wire::lemma_varint_bytes_len(x as nat, 5);
            crate::wire::lemma_varint_round_trip(x as nat, data, pos, 5);
        },
        (ScalarType::VarI32, ValueV::I32(x)) => {
            crate::wire::lemma_varint_bytes_len(crate::wire::zigzag(x as int), 5);
            crate::wire::lemma_varint_round_trip(crate::wire::zigzag(x as int), data, pos, 5);
            crate::wire::lemma_zigzag_round_trip(x as int);
        },
        (ScalarType::VarU64, ValueV::U64(x)) => {
            crate::wire::lemma_varint_bytes_len(x as nat, 10);
            crate::wire::lemma_varint_round_trip(x as nat, data, pos, 10);
        },
        (ScalarType::VarI64, ValueV::I64(x)) => {
            crate::wire::lemma_varint_bytes_len(crate::wire::zigzag(x as int), 10);
            crate::wire::lemma_varint_round_trip(crate::wire::zigzag(x as int), data, pos, 10);
            crate::wire::lemma_zigzag_round_trip(x as int);
        },
        (ScalarType::Bool, ValueV::Bool(b)) => {
            crate::wire::lemma_index_of_matching(data, pos, w, 0);
            assert(data[pos] == crate::io::bool_byte(b));
        },
        (ScalarType::Char, ValueV::Char(c)) => {
            crate::wire::lemma_be_bytes_len((c as u32) as nat, 4);
            assert(data.subrange(pos, pos + 4) =~= be_bytes((c as u32) as nat, 4));
            crate::wire::lemma_be_round_trip((c as u32) as nat, 4);
            vstd::utf8::char_is_scalar(c);
            vstd::utf8::char_u32_cast(c, c as u32);
        },
        (ScalarType::Str, ValueV::Str(s)) => {
            let bytes = vstd::utf8::encode_utf8(s);
            let pre = varint_bytes(bytes.len());
            crate::wire::lemma_varint_bytes_len(bytes.len(), 5);
            crate::wire::lemma_subrange_of_matching(data, pos, w, 0, pre.len() as int);
            assert(w.subrange(0, pre.len() as int) =~= pre);
            crate::wire::lemma_varint_round_trip(bytes.len(), data, pos, 5);
            let end = pos + pre.len();
            crate::wire::lemma_subrange_of_matching(data, pos, w, pre.len() as int, w.len() as int);
            assert(w.subrange(pre.len() as int, w.len() as int) =~= bytes);
            vstd::utf8::encode_utf8_valid_utf8(s);
            vstd::utf8::encode_utf8_decode_utf8(s);
        },
        (ScalarType::Address, ValueV::Addr(a)) => {
            crate::net::lemma_socket_round_trip(a, data, pos);
        },
        _ => {
            lemma_scalar_round_trip_fixed(t, v, data, pos);
        },
    }
}

/// The fixed-width cases of the scalar round-trip law.
#[verifier::rlimit(100)]
#[verifier::spinoff_prover]
proof fn lemma_scalar_round_trip_fixed(t: ScalarType, v: ValueV, data: Seq<u8>, pos: int)
    requires
        !(t is VarU32 || t is VarI32 || t is VarU64 || t is VarI64 || t is Bool || t is Char
            || t is Str || t is Address),
        scalar_wire(t, v) is Some,
        0 <= pos,
        pos + scalar_wire(t, v).unwrap().len() <= data.len(),
        data.subrange(pos, pos + scalar_wire(t, v).unwrap().len() as int) == scalar_wire(
            t,
            v,
        ).unwrap(),
    ensures
        parse_scalar(t, data, pos) == SParse::Done(v, pos + scalar_wire(t, v).unwrap().len()),
{
    reveal(parse_scalar);
    crate::wire::lemma_pow256_table();
    let w = scalar_wire(t, v).unwrap();
    match (t, v) {
        (ScalarType::U8, ValueV::U8(x)) => {
            crate::wire::lemma_index_of_matching(data, pos, w, 0);
            assert(data[pos] == x);
        },
        (ScalarType::I8, ValueV::I8(x)) => {
            crate::wire::lemma_be_bytes_len(to_unsigned(x as int, 1), 1);
            assert(data.subrange(pos, pos + 1) =~= be_bytes(to_unsigned(x as int, 1), 1));
            crate::wire::lemma_signed_round_trip(x as int, 1);
            crate::wire::lemma_be_round_trip(to_unsigned(x as int, 1), 1);
            assert(data.subrange(pos, pos + 1).drop_last() =~= Seq::<u8>::empty());
            assert(data.subrange(pos, pos + 1).last() == data[pos]);
            assert(nat_from_be(data.subrange(pos, pos + 1)) == data[pos] as nat);
        },
        (ScalarType::U16, ValueV::U16(x)) => {
            lemma_fixed_be(x as nat, 2, data, pos);
        },
        (ScalarType::U16Le, ValueV::U16(x)) => {
            lemma_fixed_le(x as nat, 2, data, pos);
        },
        (ScalarType::I16, ValueV::I16(x)) => {
            crate::wire::lemma_signed_round_trip(x as int, 2);
            lemma_fixed_be(to_unsigned(x as int, 2), 2, data, pos);
        },
        (ScalarType::I16Le, ValueV::I16(x)) => {
            crate::wire::lemma_signed_round_trip(x as int, 2);
            lemma_fixed_le(to_unsigned(x as int, 2), 2, data, pos);
        },
        (ScalarType::U24, ValueV::U32(x)) => {
            lemma_fixed_be(x as nat, 3, data, pos);
        },
        (ScalarType::U24Le, ValueV::U32(x)) => {
            lemma_fixed_le(x as nat, 3, data, pos);
        },
        (ScalarType::I24, ValueV::I32(x)) => {
            crate::wire::lemma_signed_round_trip(x as int, 3);
            lemma_fixed_be(to_unsigned(x as int, 3), 3, data, pos);
        },
        (ScalarType::I24Le, ValueV::I32(x)) => {
            crate::wire::lemma_signed_round_trip(x as int, 3);
            lemma_fixed_le(to_unsigned(x as int, 3), 3, data, pos);
        },
        (ScalarType::U32, ValueV::U32(x)) => {
            lemma_fixed_be(x as nat, 4, data, pos);
        },
        (ScalarType::U32Le, ValueV::U32(x)) => {
            lemma_fixed_le(x as nat, 4, data, pos);
        },
        (ScalarType::I32, ValueV::I32(x)) => {
            crate::wire::lemma_signed_round_trip(x as int, 4);
            lemma_fixed_be(to_unsigned(x as int, 4), 4, data, pos);
        },
        (ScalarType::I32Le, ValueV::I32(x)) => {
            crate::wire::lemma_signed_round_trip(x as int, 4);
            lemma_fixed_le(to_unsigned(x as int, 4), 4, data, pos);
        },
        (ScalarType::U64, ValueV::U64(x)) => {
            lemma_fixed_be(x as nat, 8, data, pos);
        },
        (ScalarType::U64Le, ValueV::U64(x)) => {
            lemma_fixed_le(x as nat, 8, data, pos);
        },
        (ScalarType::I64, ValueV::I64(x)) => {
            crate::wire::lemma_signed_round_trip(x as int, 8);
            lemma_fixed_be(to_unsigned(x as int, 8), 8, data, pos);
        },
        (ScalarType::I64Le, ValueV::I64(x)) => {
            crate::wire::lemma_signed_round_trip(x as int, 8);
            lemma_fixed_le(to_unsigned(x as int, 8), 8, data, pos);
        },
        (ScalarType::U128, ValueV::U128(x)) => {
            lemma_fixed_be(x as nat, 16, data, pos);
        },
        (ScalarType::U128Le, ValueV::U128(x)) => {
            lemma_fixed_le(x as nat, 16, data, pos);
        },
        (ScalarType::I128, ValueV::I128(x)) => {
            crate::wire::lemma_signed_round_trip(x as int, 16);
            lemma_fixed_be(to_unsigned(x as int, 16), 16, data, pos);
        },
        (ScalarType::I128Le, ValueV::I128(x)) => {
            crate::wire::lemma_signed_round_trip(x as int, 16);
            lemma_fixed_le(to_unsigned(x as int, 16), 16, data, pos);
        },
        _ => {
            assert(false);
        },
    }
}

/// A big-endian field of `n` bytes at `pos` parses back to its value.
proof fn lemma_fixed_be(u: nat, n: nat, data: Seq<u8>, pos: int)
    requires
        u < crate::wire::pow256(n),
        0 <= pos,
        pos + be_bytes(u, n).len() <= data.len(),
        data.subrange(pos, pos + be_bytes(u, n).len() as int) == be_bytes(u, n),
    ensures
        be_bytes(u, n).len() == n,
        nat_from_be(data.subrange(pos, pos + n as int)) == u,
{
    crate::wire::lemma_be_bytes_len(u, n);
    crate::wire::lemma_be_round_trip(u, n);
}

/// A little-endian field of `n` bytes at `pos` parses back to its value.
proof fn lemma_fixed_le(u: nat, n: nat, data: Seq<u8>, pos: int)
    requires
        u < crate::wire::pow256(n),
        0 <= pos,
        pos + crate::wire::le_bytes(u, n).len() <= data.len(),
        data.subrange(pos, pos + crate::wire::le_bytes(u, n).len() as int)
            == crate::wire::le_bytes(u, n),
    ensures
        crate::wire::le_bytes(u, n).len() == n,
        crate::wire::nat_from_le(data.subrange(pos, pos + n as int)) == u,
{
    crate::wire::lemma_le_bytes_len(u, n);
    crate::wire::lemma_le_round_trip(u, n);
}

/// Decoding the concatenated wire forms of a list's elements returns them in
/// order.
proof fn lemma_list_round_trip(t: ScalarType, vs: Seq<ValueV>, data: Seq<u8>, pos: int)
    requires
        list_wire_elems(t, vs) is Some,
        0 <= pos,
        pos + list_wire_elems(t, vs).unwrap().len() <= data.len(),
        data.subrange(pos, pos + list_wire_elems(t, vs).unwrap().len() as int) == list_wire_elems(
            t,
            vs,
        ).unwrap(),
    ensures
        list_parse(t, data, pos, vs.len()) == LParse::Done(
            vs,
            pos + list_wire_elems(t, vs).unwrap().len(),
        ),
    decreases vs.len(),
{
    if vs.len() == 0 {
        assert(list_parse(t, data, pos, 0) == LParse::Done(Seq::<ValueV>::empty(), pos));
        assert(vs =~= Seq::<ValueV>::empty());
    } else {
        let h = scalar_wire(t, vs[0]).unwrap();
        let tl = list_wire_elems(t, vs.drop_first()).unwrap();
        let b = list_wire_elems(t, vs).unwrap();
        assert(b == h + tl);
        crate::wire::lemma_subrange_of_matching(data, pos, b, 0, h.len() as int);
        assert(b.subrange(0, h.len() as int) =~= h);
        lemma_scalar_round_trip(t, vs[0], data, pos);
        let p2 = pos + h.len();
        crate::wire::lemma_subrange_of_matching(data, pos, b, h.len() as int, b.len() as int);
        assert(b.subrange(h.len() as int, b.len() as int) =~= tl);
        lemma_list_round_trip(t, vs.drop_first(), data, p2);
        assert(seq![vs[0]] + vs.drop_first() =~= vs);
    }
}

/// Decoding the wire form of an unconditioned field returns its value.
proof fn lemma_field_plain_round_trip(ft: FieldType, v: FieldValueV, data: Seq<u8>, pos: int)
    requires
        field_wire_plain(ft, v) is Some,
        0 <= pos,
        pos + field_wire_plain(ft, v).unwrap().len() <= data.len(),
        data.subrange(pos, pos + field_wire_plain(ft, v).unwrap().len() as int)
            == field_wire_plain(ft, v).unwrap(),
    ensures
        field_parse_plain(ft, data, pos) == FParse::Done(
            v,
            pos + field_wire_plain(ft, v).unwrap().len(),
        ),
{
    let b = field_wire_plain(ft, v).unwrap();
    match (ft, v) {
        (FieldType::Scalar(t), FieldValueV::Scalar(sv)) => {
            lemma_scalar_round_trip(t, sv, data, pos);
        },
        (FieldType::Optional(t), FieldValueV::Optional(o)) => {
            match o {
                Some(sv) => {
                    crate::wire::lemma_index_of_matching(data, pos, b, 0);
                    assert(data[pos] == 1u8);
                    let h = scalar_wire(t, sv).unwrap();
                    crate::wire::lemma_subrange_of_matching(data, pos, b, 1, b.len() as int);
                    assert(b.subrange(1, b.len() as int) =~= h);
                    lemma_scalar_round_trip(t, sv, data, pos + 1);
                },
                None => {
                    crate::wire::lemma_index_of_matching(data, pos, b, 0);
                    assert(data[pos] == 0u8);
                },
            }
        },
        (FieldType::List(t), FieldValueV::List(vs)) => {
            let pre = varint_bytes(vs.len());
            let body = list_wire_elems(t, vs).unwrap();
            crate::wire::lemma_pow128_table();
            crate::wire::lemma_varint_bytes_len(vs.len(), 5);
            crate::wire::lemma_subrange_of_matching(data, pos, b, 0, pre.len() as int);
            assert(b.subrange(0, pre.len() as int) =~= pre);
            crate::wire::lemma_varint_round_trip(vs.len(), data, pos, 5);
            let p2 = pos + pre.len();
            crate::wire::lemma_subrange_of_matching(data, pos, b, pre.len() as int, b.len() as int);
            assert(b.subrange(pre.len() as int, b.len() as int) =~= body);
            lemma_list_round_trip(t, vs, data, p2);
            assert(vs.len() % 0x100000000 == vs.len());
        },
        _ => {
            assert(false);
        },
    }
}

/// A predicate whose references stay before `i` reads only the first `i`
/// fields.
proof fn lemma_eval_pred_prefix(p: CompiledPred, vals: Seq<FieldValueV>, i: int)
    requires
        pred_wf(p, i),
        0 <= i <= vals.len(),
    ensures
        eval_pred(p, vals.take(i)) == eval_pred(p, vals),
    decreases p,
{
    match p {
        CompiledPred::Const(_) => {},
        CompiledPred::Field(j) => {
            if 0 <= j < i {
                assert(vals.take(i)[j as int] == vals[j as int]);
            }
        },
        CompiledPred::EqUint(j, _) => {
            if 0 <= j < i {
                assert(vals.take(i)[j as int] == vals[j as int]);
            }
        },
        CompiledPred::EqInt(j, _) => {
            if 0 <= j < i {
                assert(vals.take(i)[j as int] == vals[j as int]);
            }
        },
        CompiledPred::And(a, b) => {
            lemma_eval_pred_prefix(*a, vals, i);
            lemma_eval_pred_prefix(*b, vals, i);
        },
        CompiledPred::Or(a, b) => {
            lemma_eval_pred_prefix(*a, vals, i);
            lemma_eval_pred_prefix(*b, vals, i);
        },
        CompiledPred::Not(a) => {
            lemma_eval_pred_prefix(*a, vals, i);
        },
    }
}

/// Whether a field's value survives a round trip under its directive: a
/// skipped field must already hold its default, and a conditional field whose
/// directive omits it from the wire must already be absent.  Every other
/// value encodes and decodes unchanged.
pub open spec fn frag_ready(f: CompiledField, vals: Seq<FieldValueV>, i: int) -> bool {
    match f.directive {
        CompiledDirective::Plain => true,
        CompiledDirective::Skip => vals[i] == default_field(f.ty),
        CompiledDirective::Require(_) => true,
        CompiledDirective::IfPresent(j) => 0 <= j < vals.len() && (vals[j as int] matches
            FieldValueV::Optional(o) && o is None ==> vals[i] == FieldValueV::Optional(
            None::<ValueV>,
        )),
        CompiledDirective::Satisfy(p) => eval_pred(p, vals) == Some(false) ==> vals[i]
            == FieldValueV::Optional(None::<ValueV>),
    }
}

/// Whether every field of a record value survives a round trip.
pub open spec fn record_ready(c: CompiledRecord, v: RecordValueV) -> bool {
    match (c, v) {
        (CompiledRecord::Struct { fields }, RecordValueV::Struct(vals)) => forall|i: int|
            0 <= i < fields@.len() ==> #[trigger] frag_ready(fields@[i], vals, i),
        (CompiledRecord::Enum { repr, variants }, RecordValueV::Variant(k, vals)) => 0 <= k
            < variants@.len() && forall|i: int|
            0 <= i < variants@[k].fields@.len() ==> #[trigger] frag_ready(
                variants@[k].fields@[i],
                vals,
                i,
            ),
        _ => true,
    }
}

/// Decoding one field's wire fragment, with the earlier fields already bound
/// to their original values, returns the field's value.
proof fn lemma_frag_round_trip(
    f: CompiledField,
    vals: Seq<FieldValueV>,
    i: int,
    data: Seq<u8>,
    pos: int,
)
    requires
        compiled_field_wf(f, i),
        0 <= i < vals.len(),
        frag_wire(f, vals, i) is Some,
        frag_ready(f, vals, i),
        0 <= pos,
        pos + frag_wire(f, vals, i).unwrap().len() <= data.len(),
        data.subrange(pos, pos + frag_wire(f, vals, i).unwrap().len() as int) == frag_wire(
            f,
            vals,
            i,
        ).unwrap(),
    ensures
        frag_parse(f, vals.take(i), data, pos) == FParse::Done(
            vals[i],
            pos + frag_wire(f, vals, i).unwrap().len(),
        ),
{
    match f.directive {
        CompiledDirective::Plain => {
            lemma_field_plain_round_trip(f.ty, vals[i], data, pos);
        },
        CompiledDirective::Skip => {},
        CompiledDirective::Require(j) => {
            assert(vals.take(i)[j as int] == vals[j as int]);
            match vals[j as int] {
                FieldValueV::Optional(o) => {
                    match o {
                        Some(_) => {
                            match (f.ty, vals[i]) {
                                (FieldType::Optional(t), FieldValueV::Optional(oi)) => {
                                    match oi {
                                        Some(sv) => {
                                            lemma_scalar_round_trip(t, sv, data, pos);
                                        },
                                        None => {},
                                    }
                                },
                                _ => {},
                            }
                        },
                        None => {},
                    }
                },
                _ => {},
            }
        },
        CompiledDirective::IfPresent(j) => {
            assert(vals.take(i)[j as int] == vals[j as int]);
            match vals[j as int] {
                FieldValueV::Optional(o) => {
                    match o {
                        Some(_) => {
                            match (f.ty, vals[i]) {
                                (FieldType::Optional(t), FieldValueV::Optional(oi)) => {
                                    match oi {
                                        Some(sv) => {
                                            lemma_scalar_round_trip(t, sv, data, pos);
                                        },
                                        None => {},
                                    }
                                },
                                _ => {},
                            }
                        },
                        None => {},
                    }
                },
                _ => {},
            }
        },
        CompiledDirective::Satisfy(p) => {
            lemma_eval_pred_prefix(p, vals, i);
            match eval_pred(p, vals) {
                Some(cond) => {
                    if cond {
                        match (f.ty, vals[i]) {
                            (FieldType::Optional(t), FieldValueV::Optional(oi)) => {
                                match oi {
                                    Some(sv) => {
                                        lemma_scalar_round_trip(t, sv, data, pos);
                                    },
                                    None => {},
                                }
                            },
                            _ => {},
                        }
                    }
                },
                None => {},
            }
        },
    }
}

/// Decoding the concatenated fragments of the fields from `i` on, the first
/// `i` already bound, returns the remaining field values.
proof fn lemma_fields_round_trip(
    fs: Seq<CompiledField>,
    vals: Seq<FieldValueV>,
    data: Seq<u8>,
    pos: int,
    i: int,
)
    requires
        compiled_fields_wf(fs),
        vals.len() == fs.len(),
        0 <= i <= fs.len(),
        fields_wire(fs, vals, i) is Some,
        forall|k: int| 0 <= k < fs.len() ==> #[trigger] frag_ready(fs[k], vals, k),
        0 <= pos,
        pos + fields_wire(fs, vals, i).unwrap().len() <= data.len(),
        data.subrange(pos, pos + fields_wire(fs, vals, i).unwrap().len() as int) == fields_wire(
            fs,
            vals,
            i,
        ).unwrap(),
    ensures
        fields_parse(fs, data, pos, vals.take(i)) == FsParse::Done(
            vals,
            pos + fields_wire(fs, vals, i).unwrap().len(),
        ),
    decreases fs.len() - i,
{
    if i >= fs.len() {
        assert(vals.take(i) =~= vals);
    } else {
        let h = frag_wire(fs[i], vals, i).unwrap();
        let tl = fields_wire(fs, vals, i + 1).unwrap();
        let b = fields_wire(fs, vals, i).unwrap();
        assert(b == h + tl);
        crate::wire::lemma_subrange_of_matching(data, pos, b, 0, h.len() as int);
        assert(b.subrange(0, h.len() as int) =~= h);
        lemma_frag_round_trip(fs[i], vals, i, data, pos);
        let p2 = pos + h.len();
        crate::wire::lemma_subrange_of_matching(data, pos, b, h.len() as int, b.len() as int);
        assert(b.subrange(h.len() as int, b.len() as int) =~= tl);
        lemma_fields_round_trip(fs, vals, data, p2, i + 1);
        assert(vals.take(i).push(vals[i]) =~= vals.take(i + 1));
    }
}

/// Decoding the wire form of a discriminant returns its value.
proof fn lemma_repr_round_trip(rt: ReprType, d: int, data: Seq<u8>, pos: int)
    requires
        repr_min(rt) <= d <= repr_max(rt),
        0 <= pos,
        pos + repr_size(rt) <= data.len(),
        data.subrange(pos, pos + repr_size(rt) as int) == repr_wire(rt, d),
    ensures
        repr_parse(rt, data, pos) == DParse::Done(d, pos + repr_size(rt)),
{
    crate::wire::lemma_pow256_table();
    let n = repr_size(rt);
    crate::wire::lemma_be_round_trip(to_unsigned(d, n), n);
    match rt {
        ReprType::U8 => {},
        ReprType::U16 => {},
        ReprType::U32 => {},
        ReprType::U64 => {},
        ReprType::U128 => {},
        _ => {
            crate::wire::lemma_signed_round_trip(d, n);
        },
    }
}

/// A variant is found under its own discriminant: uniqueness makes the first
/// match the only one.
proof fn lemma_find_variant_at(variants: Seq<CompiledVariant>, k: int, i: int)
    requires
        0 <= i <= k < variants.len(),
        forall|x: int, y: int|
            0 <= x < y < variants.len() ==> #[trigger] variants[x].discriminant
                != #[trigger] variants[y].discriminant,
    ensures
        find_variant(variants, variants[k].discriminant as int, i) == Some(k),
    decreases k - i,
{
    if i < k {
        assert(variants[i].discriminant != variants[k].discriminant);
        lemma_find_variant_at(variants, k, i + 1);
    }
}

/// Decoding the encoding of a record returns the record: the record
/// round-trip law.  It holds of every value the record can encode whose
/// skipped fields hold their defaults and whose directive-omitted fields are
/// absent; any other value loses exactly those fields on the wire.
pub proof fn lemma_record_round_trip(c: CompiledRecord, v: RecordValueV, data: Seq<u8>, pos: int)
    requires
        compiled_wf(c),
        record_wire(c, v) is Some,
        record_ready(c, v),
        0 <= pos,
        pos + record_wire(c, v).unwrap().len() <= data.len(),
        data.subrange(pos, pos + record_wire(c, v).unwrap().len() as int) == record_wire(
            c,
            v,
        ).unwrap(),
    ensures
        record_parse(c, data, pos) == RParse::Done(v, pos + record_wire(c, v).unwrap().len()),
{
    match (c, v) {
        (CompiledRecord::Struct { fields }, RecordValueV::Struct(vals)) => {
            assert(vals.take(0) =~= Seq::<FieldValueV>::empty());
            lemma_fields_round_trip(fields@, vals, data, pos, 0);
        },
        (CompiledRecord::Enum { repr, variants }, RecordValueV::Variant(k, vals)) => {
            let d = variants@[k].discriminant as int;
            let pre = repr_wire(repr, d);
            let body = fields_wire(variants@[k].fields@, vals, 0).unwrap();
            let b = record_wire(c, v).unwrap();
            assert(b == pre + body);
            crate::wire::lemma_be_bytes_len(to_unsigned(d, repr_size(repr)), repr_size(repr));
            crate::wire::lemma_subrange_of_matching(data, pos, b, 0, pre.len() as int);
            assert(b.subrange(0, pre.len() as int) =~= pre);
            lemma_repr_round_trip(repr, d, data, pos);
            lemma_find_variant_at(variants@, k, 0);
            let p2 = pos + repr_size(repr);
            crate::wire::lemma_subrange_of_matching(data, pos, b, pre.len() as int, b.len() as int);
            assert(b.subrange(pre.len() as int, b.len() as int) =~= body);
            assert(vals.take(0) =~= Seq::<FieldValueV>::empty());
            lemma_fields_round_trip(variants@[k].fields@, vals, data, p2, 0);
        },
        _ => {},
    }
}

/// A skipped field contributes nothing to the wire, whatever value it holds.
pub proof fn lemma_skip_writes_nothing(f: CompiledField, vals: Seq<FieldValueV>, i: int)
    requires
        f.directive is Skip,
        0 <= i < vals.len(),
    ensures
        frag_wire(f, vals, i) == Some(Seq::<u8>::empty()),
{
}

/// A skipped field decodes to its type's default and consumes no bytes,
/// whatever the buffer holds.
pub proof fn lemma_skip_decodes_default(
    f: CompiledField,
    acc: Seq<FieldValueV>,
    data: Seq<u8>,
    pos: int,
)
    requires
        f.directive is Skip,
    ensures
        frag_parse(f, acc, data, pos) == FParse::Done(default_field(f.ty), pos),
{
}

} // verus!
