//! Helper types that tag a value with its wire form: endianness wrappers,
//! 24-bit bounded integers, and variable-length integer markers.

use crate::wire::{be_bytes, le_bytes, lemma_pow256_table, nat_from_be, nat_from_le, pow256};
use vstd::prelude::*;

verus! {

/// Tags a value as little-endian on the wire; numeric types wider than one
/// byte default to big-endian unless wrapped.
#[derive(Clone, Copy, Debug, PartialEq, Eq)]
pub struct LE<T>(pub T);

impl<T> LE<T> {
    /// Wraps a value.
    pub fn new(val: T) -> (r: LE<T>)
        ensures
            r.0 == val,
    {
        LE(val)
    }
}

/// Tags a value as big-endian on the wire, making the default byte order
/// explicit.
#[derive(Clone, Copy, Debug, PartialEq, Eq)]
pub struct BE<T>(pub T);

impl<T> BE<T> {
    /// Wraps a value.
    pub fn new(val: T) -> (r: BE<T>)
        ensures
            r.0 == val,
    {
        BE(val)
    }
}

/// A value carried as a variable-length integer on the wire; the type
/// parameter picks the 32- or 64-bit signed or unsigned form.
#[derive(Clone, Copy, Debug, PartialEq, Eq)]
pub struct VarInt<T>(pub T);

/// An unsigned 24-bit integer: a 32-bit host value constrained to
/// `[0, 2^24 - 1]`, carried as exactly three bytes on the wire.
#[allow(non_camel_case_types)]
#[derive(Clone, Copy, Debug, PartialEq, Eq, Structural)]
pub struct u24(pub u32);

/// Whether `num` fits the unsigned 24-bit range.
pub fn is_u24(num: usize) -> (r: bool)
    ensures
        r == (num <= 0xFFFFFF),
{
    num <= 0xFFFFFF
}

impl u24 {
    /// The range invariant: the host value fits 24 bits.
    pub open spec fn wf(&self) -> bool {
        self.0 <= 0xFFFFFF
    }

    /// Wraps an in-range value.
    pub fn new(val: u32) -> (r: u24)
        requires
            val <= 0xFFFFFF,
        ensures
            r.0 == val,
            r.wf(),
    {
        u24(val)
    }

    /// Wraps a value, or reports that it exceeds the 24-bit range.
    pub fn try_new(val: u32) -> (r: Option<u24>)
        ensures
            val <= 0xFFFFFF ==> r == Some(u24(val)),
            val > 0xFFFFFF ==> r is None,
    {
        if val <= 0xFFFFFF {
            Some(u24(val))
        } else {
            None
        }
    }

    /// Whether `num` fits the unsigned 24-bit range.
    pub fn is_u24(num: usize) -> (r: bool)
        ensures
            r == (num <= 0xFFFFFF),
    {
        num <= 0xFFFFFF
    }

    /// Reads the first three bytes of `bytes` as a big-endian 24-bit value.
    pub fn from_be_bytes(bytes: &[u8]) -> (r: u24)
        requires
            bytes@.len() >= 3,
        ensures
            r.0 == nat_from_be(bytes@.subrange(0, 3)),
            r.wf(),
    {
        let v: u32 = bytes[0] as u32 * 65536 + bytes[1] as u32 * 256 + bytes[2] as u32;
        proof {
            let s = bytes@.subrange(0, 3);
            assert(s.drop_last() =~= bytes@.subrange(0, 2));
            assert(s.drop_last().drop_last() =~= bytes@.subrange(0, 1));
            assert(s.drop_last().drop_last().drop_last() =~= Seq::<u8>::empty());
            assert(nat_from_be(s.drop_last().drop_last().drop_last()) == 0);
            assert(nat_from_be(s.drop_last().drop_last()) == bytes@[0] as nat);
            assert(nat_from_be(s.drop_last()) == (bytes@[0] as nat) * 256 + bytes@[1] as nat);
        }
        u24(v)
    }

    /// Reads the first three bytes of `bytes` as a little-endian 24-bit
    /// value.
    pub fn from_le_bytes(bytes: &[u8]) -> (r: u24)
        requires
            bytes@.len() >= 3,
        ensures
            r.0 == nat_from_le(bytes@.subrange(0, 3)),
            r.wf(),
    {
        let v: u32 = bytes[0] as u32 + bytes[1] as u32 * 256 + bytes[2] as u32 * 65536;
        proof {
            let s = bytes@.subrange(0, 3);
            assert(s.drop_first() =~= bytes@.subrange(1, 3));
            assert(s.drop_first().drop_first() =~= bytes@.subrange(2, 3));
            assert(s.drop_first().drop_first().drop_first() =~= Seq::<u8>::empty());
            assert(nat_from_le(s.drop_first().drop_first().drop_first()) == 0);
            assert(nat_from_le(s.drop_first().drop_first()) == bytes@[2] as nat);
            assert(nat_from_le(s.drop_first()) == (bytes@[1] as nat) + 256 * (bytes@[2] as nat));
        }
        u24(v)
    }

    /// The three-byte big-endian wire form of the value.
    pub fn to_be_bytes(self) -> (r: Vec<u8>)
        requires
            self.wf(),
        ensures
            r@ == be_bytes(self.0 as nat, 3),
    {
        let mut w = crate::io::ByteWriter::new();
        let _ = w.write_u24(self.0);
        proof {
            lemma_pow256_table();
        }
        w.into_vec()
    }

    /// The three-byte little-endian wire form of the value.
    pub fn to_le_bytes(self) -> (r: Vec<u8>)
        requires
            self.wf(),
        ensures
            r@ == le_bytes(self.0 as nat, 3),
    {
        let mut w = crate::io::ByteWriter::new();
        let _ = w.write_u24_le(self.0);
        proof {
            lemma_pow256_table();
        }
        w.into_vec()
    }
}

/// A signed 24-bit integer: a 32-bit host value constrained to
/// `[-2^23, 2^23 - 1]`, carried as exactly three bytes on the wire.
#[allow(non_camel_case_types)]
#[derive(Clone, Copy, Debug, PartialEq, Eq, Structural)]
pub struct i24(pub i32);

impl i24 {
    /// The range invariant: the host value fits 24 bits.
    pub open spec fn wf(&self) -> bool {
        -0x800000 <= self.0 <= 0x7FFFFF
    }

    /// Wraps an in-range value.
    pub fn new(val: i32) -> (r: i24)
        requires
            -0x800000 <= val <= 0x7FFFFF,
        ensures
            r.0 == val,
            r.wf(),
    {
        i24(val)
    }

    /// Wraps a value, or reports that it exceeds the signed 24-bit range.
    pub fn try_new(val: i32) -> (r: Option<i24>)
        ensures
            -0x800000 <= val <= 0x7FFFFF ==> r == Some(i24(val)),
            !(-0x800000 <= val <= 0x7FFFFF) ==> r is None,
    {
        if -0x800000 <= val && val <= 0x7FFFFF {
            Some(i24(val))
        } else {
            None
        }
    }
}

/// A 32-bit unsigned value carried as a variable-length integer.
#[allow(non_camel_case_types)]
#[derive(Clone, Copy, Debug, PartialEq, Eq, Structural)]
pub struct varu32(pub u32);

impl varu32 {
    /// Wraps a value.
    pub fn new(val: u32) -> (r: varu32)
        ensures
            r.0 == val,
    {
        varu32(val)
    }
}

/// A 32-bit signed value carried as a zigzag variable-length integer.
#[allow(non_camel_case_types)]
#[derive(Clone, Copy, Debug, PartialEq, Eq, Structural)]
pub struct vari32(pub i32);

impl vari32 {
    /// Wraps a value.
    pub fn new(val: i32) -> (r: vari32)
        ensures
            r.0 == val,
    {
        vari32(val)
    }
}

/// A 64-bit unsigned value carried as a variable-length integer.
#[allow(non_camel_case_types)]
#[derive(Clone, Copy, Debug, PartialEq, Eq, Structural)]
pub struct varu64(pub u64);

impl varu64 {
    /// Wraps a value.
    pub fn new(val: u64) -> (r: varu64)
        ensures
            r.0 == val,
    {
        varu64(val)
    }
}

/// A 64-bit signed value carried as a zigzag variable-length integer.
#[allow(non_camel_case_types)]
#[derive(Clone, Copy, Debug, PartialEq, Eq, Structural)]
pub struct vari64(pub i64);

impl vari64 {
    /// Wraps a value.
    pub fn new(val: i64) -> (r: vari64)
        ensures
            r.0 == val,
    {
        vari64(val)
    }
}

} // verus!
