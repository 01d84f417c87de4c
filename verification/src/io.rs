//! The cursor engine: a bounds-checked read cursor over an immutable byte
//! sequence, and an append-only write sink over a growable byte buffer.
//!
//! Every read either advances the position by exactly the number of bytes it
//! consumed or, on failure, leaves the cursor untouched.  Writes only append;
//! the sink never rewinds.  The contracts speak of the wire model in
//! [`crate::wire`]: big-endian is the default byte order, with explicit
//! little-endian forms beside it.

use crate::error::BinaryError;
use crate::wire::{
    be_bytes, le_bytes, lemma_parse_varint_bounds, lemma_pow128_mono, lemma_pow128_pos,
    lemma_pow128_table, lemma_pow256_mono, lemma_pow256_pos, lemma_pow256_table, nat_from_be,
    nat_from_le, parse_varint, pow128, pow256, sign_extend, to_unsigned, unzigzag, varint_bytes,
    zigzag, VarParse,
};
use vstd::prelude::*;
use vstd::utf8::{decode_utf8, encode_utf8, is_scalar, valid_utf8};

verus! {

/// The single byte that carries a boolean: zero for false, one for true.
pub open spec fn bool_byte(b: bool) -> u8 {
    if b {
        1
    } else {
        0
    }
}

/// Computes `256^n - 1`, the largest value an `n`-byte field can hold.
fn pow256_m1(n: usize) -> (r: u128)
    requires
        n <= 16,
    ensures
        r as nat == pow256(n as nat) - 1,
{
    let mut r: u128 = 0;
    let mut i: usize = 0;
    while i < n
        invariant
            i <= n <= 16,
            r as nat == pow256(i as nat) - 1,
        decreases n - i,
    {
        proof {
            lemma_pow256_mono(i as nat + 1, 16);
            lemma_pow256_table();
            lemma_pow256_pos(i as nat);
        }
        r = r * 256 + 255;
        i = i + 1;
    }
    r
}

/// Interprets `u` as an `n`-byte two's-complement value.
fn to_signed(u: u128, n: usize) -> (r: i128)
    requires
        1 <= n <= 16,
        u < pow256(n as nat),
    ensures
        r == sign_extend(u as nat, n as nat),
{
    proof {
        lemma_pow256_mono(n as nat, 16);
        lemma_pow256_table();
    }
    let half: u128 = pow256_m1(n) / 2 + 1;
    proof {
        lemma_pow256_pos((n - 1) as nat);
        assert(pow256(n as nat) == 256 * pow256((n - 1) as nat));
        assert(pow256(n as nat) % 2 == 0) by (nonlinear_arith)
            requires
                pow256(n as nat) == 256 * pow256((n - 1) as nat),
        ;
    }
    if u < half {
        u as i128
    } else {
        let m1: u128 = pow256_m1(n);
        -((m1 - u) as i128) - 1
    }
}

/// The `n`-byte two's-complement representative of `v`.
fn from_signed(v: i128, n: usize) -> (r: u128)
    requires
        1 <= n <= 16,
        -(pow256(n as nat) / 2) <= v < pow256(n as nat) / 2,
    ensures
        r as nat == to_unsigned(v as int, n as nat),
        (r as nat) < pow256(n as nat),
{
    proof {
        lemma_pow256_mono(n as nat, 16);
        lemma_pow256_table();
        lemma_pow256_pos((n - 1) as nat);
        assert(pow256(n as nat) == 256 * pow256((n - 1) as nat));
        assert(pow256(n as nat) % 2 == 0) by (nonlinear_arith)
            requires
                pow256(n as nat) == 256 * pow256((n - 1) as nat),
        ;
    }
    if v >= 0 {
        v as u128
    } else {
        let m1: u128 = pow256_m1(n);
        m1 - ((-(v + 1)) as u128)
    }
}

/// A panic-free reader over an immutable byte sequence.
///
/// The reader tracks a position into the sequence; a successful read advances
/// the position by exactly the consumed byte count, and a failed read leaves
/// it unchanged.
pub struct ByteReader {
    buf: Vec<u8>,
    pos: usize,
}

impl ByteReader {
    /// The full underlying byte sequence (reads never change it).
    pub closed spec fn data(&self) -> Seq<u8> {
        self.buf@
    }

    /// The current read position.
    pub closed spec fn pos(&self) -> int {
        self.pos as int
    }

    /// The cursor invariant: the position stays within the buffer.
    pub open spec fn wf(&self) -> bool {
        0 <= self.pos() <= self.data().len()
    }

    /// How many bytes remain to be read.
    pub open spec fn remaining_spec(&self) -> int {
        self.data().len() - self.pos()
    }

    /// The next `n` bytes from the current position.
    pub open spec fn chunk(&self, n: int) -> Seq<u8> {
        self.data().subrange(self.pos(), self.pos() + n)
    }

    /// Makes a reader positioned at the start of `data`.
    pub fn new(data: Vec<u8>) -> (r: ByteReader)
        ensures
            r.wf(),
            r.data() == data@,
            r.pos() == 0,
    {
        ByteReader { buf: data, pos: 0 }
    }

    /// The current read position.
    pub fn position(&self) -> (r: usize)
        ensures
            r == self.pos(),
    {
        self.pos
    }

    /// How many bytes remain to be read.
    pub fn remaining(&self) -> (r: usize)
        requires
            self.wf(),
        ensures
            r == self.remaining_spec(),
    {
        self.buf.len() - self.pos
    }

    /// Copies the byte `offset` positions ahead of the cursor without
    /// advancing, so a failed multi-byte decode can leave the cursor
    /// untouched.
    pub fn peek_ahead(&self, offset: usize) -> (r: Result<u8, BinaryError>)
        requires
            self.wf(),
        ensures
            offset < self.remaining_spec() ==> r == Ok::<u8, BinaryError>(
                self.data()[self.pos() + offset],
            ),
            offset >= self.remaining_spec() ==> r == Err::<u8, BinaryError>(
                BinaryError::UnexpectedEof,
            ),
    {
        if offset < self.buf.len() - self.pos {
            Ok(self.buf[self.pos + offset])
        } else {
            Err(BinaryError::UnexpectedEof)
        }
    }

    /// Moves the position forward by `n`; called only after a successful
    /// lookahead decode.
    pub fn advance(&mut self, n: usize)
        requires
            old(self).wf(),
            n <= old(self).remaining_spec(),
        ensures
            final(self).wf(),
            final(self).data() == old(self).data(),
            final(self).pos() == old(self).pos() + n,
    {
        let len = self.buf.len();
        assert(self.pos + n <= len);
        self.pos = self.pos + n;
    }

    /// Consumes `n` bytes and returns their big-endian value.
    fn take_be(&mut self, n: usize) -> (v: u128)
        requires
            old(self).wf(),
            n <= 16,
            n <= old(self).remaining_spec(),
        ensures
            final(self).wf(),
            final(self).data() == old(self).data(),
            final(self).pos() == old(self).pos() + n,
            v as nat == nat_from_be(old(self).chunk(n as int)),
            (v as nat) < pow256(n as nat),
        decreases n,
    {
        proof {
            lemma_pow256_pos(n as nat);
        }
        if n == 0 {
            assert(old(self).chunk(0) =~= Seq::<u8>::empty());
            0
        } else {
            let hi = self.take_be(n - 1);
            let b = self.buf[self.pos];
            proof {
                let c = old(self).chunk(n as int);
                assert(c.drop_last() =~= old(self).chunk(n as int - 1));
                assert(c.last() == old(self).data()[old(self).pos() + n - 1]);
                lemma_pow256_mono(n as nat, 16);
                lemma_pow256_table();
                assert(hi * 256 + b < 256 * pow256((n - 1) as nat)) by (nonlinear_arith)
                    requires
                        (hi as nat) < pow256((n - 1) as nat),
                        b < 256,
                ;
            }
            let len = self.buf.len();
            assert(self.pos < len);
            self.pos = self.pos + 1;
            hi * 256 + b as u128
        }
    }

    /// Consumes `n` bytes and returns their little-endian value.
    fn take_le(&mut self, n: usize) -> (v: u128)
        requires
            old(self).wf(),
            n <= 16,
            n <= old(self).remaining_spec(),
        ensures
            final(self).wf(),
            final(self).data() == old(self).data(),
            final(self).pos() == old(self).pos() + n,
            v as nat == nat_from_le(old(self).chunk(n as int)),
            (v as nat) < pow256(n as nat),
        decreases n,
    {
        proof {
            lemma_pow256_pos(n as nat);
        }
        if n == 0 {
            assert(old(self).chunk(0) =~= Seq::<u8>::empty());
            0
        } else {
            let b = self.buf[self.pos];
            let len = self.buf.len();
            assert(self.pos < len);
            self.pos = self.pos + 1;
            let rest = self.take_le(n - 1);
            proof {
                let c = old(self).chunk(n as int);
                assert(c.first() == old(self).data()[old(self).pos()]);
                assert(c.drop_first() =~= old(self).data().subrange(
                    old(self).pos() + 1,
                    old(self).pos() + n,
                ));
                lemma_pow256_mono(n as nat, 16);
                lemma_pow256_table();
                assert(b + 256 * rest < 256 * pow256((n - 1) as nat)) by (nonlinear_arith)
                    requires
                        (rest as nat) < pow256((n - 1) as nat),
                        b < 256,
                ;
            }
            b as u128 + 256 * rest
        }
    }

    /// Reads one byte.
    pub fn read_u8(&mut self) -> (r: Result<u8, BinaryError>)
        requires
            old(self).wf(),
        ensures
            final(self).wf(),
            final(self).data() == old(self).data(),
            old(self).remaining_spec() >= 1 ==> r == Ok::<u8, BinaryError>(
                old(self).data()[old(self).pos()],
            ) && final(self).pos() == old(self).pos() + 1,
            old(self).remaining_spec() < 1 ==> r == Err::<u8, BinaryError>(
                BinaryError::UnexpectedEof,
            ) && *final(self) == *old(self),
    {
        if self.pos < self.buf.len() {
            let b = self.buf[self.pos];
            self.pos = self.pos + 1;
            Ok(b)
        } else {
            Err(BinaryError::UnexpectedEof)
        }
    }

    /// Reads one signed byte.
    pub fn read_i8(&mut self) -> (r: Result<i8, BinaryError>)
        requires
            old(self).wf(),
        ensures
            final(self).wf(),
            final(self).data() == old(self).data(),
            old(self).remaining_spec() >= 1 ==> r == Ok::<i8, BinaryError>(
                sign_extend(old(self).data()[old(self).pos()] as nat, 1) as i8,
            ) && final(self).pos() == old(self).pos() + 1,
            old(self).remaining_spec() < 1 ==> r == Err::<i8, BinaryError>(
                BinaryError::UnexpectedEof,
            ) && *final(self) == *old(self),
    {
        if self.remaining() >= 1 {
            let v = self.take_be(1);
            proof {
                lemma_pow256_table();
                assert(old(self).chunk(1) =~= seq![old(self).data()[old(self).pos()]]);
            }
            Ok(to_signed(v, 1) as i8)
        } else {
            Err(BinaryError::UnexpectedEof)
        }
    }

    /// Reads a big-endian unsigned 16-bit integer.
    pub fn read_u16(&mut self) -> (r: Result<u16, BinaryError>)
        requires
            old(self).wf(),
        ensures
            final(self).wf(),
            final(self).data() == old(self).data(),
            old(self).remaining_spec() >= 2 ==> r == Ok::<u16, BinaryError>(
                nat_from_be(old(self).chunk(2)) as u16,
            ) && final(self).pos() == old(self).pos() + 2,
            old(self).remaining_spec() < 2 ==> r == Err::<u16, BinaryError>(
                BinaryError::UnexpectedEof,
            ) && *final(self) == *old(self),
    {
        if self.remaining() >= 2 {
            let v = self.take_be(2);
            proof {
                lemma_pow256_table();
            }
            Ok(v as u16)
        } else {
            Err(BinaryError::UnexpectedEof)
        }
    }

    /// Reads a little-endian unsigned 16-bit integer.
    pub fn read_u16_le(&mut self) -> (r: Result<u16, BinaryError>)
        requires
            old(self).wf(),
        ensures
            final(self).wf(),
            final(self).data() == old(self).data(),
            old(self).remaining_spec() >= 2 ==> r == Ok::<u16, BinaryError>(
                nat_from_le(old(self).chunk(2)) as u16,
            ) && final(self).pos() == old(self).pos() + 2,
            old(self).remaining_spec() < 2 ==> r == Err::<u16, BinaryError>(
                BinaryError::UnexpectedEof,
            ) && *final(self) == *old(self),
    {
        if self.remaining() >= 2 {
            let v = self.take_le(2);
            proof {
                lemma_pow256_table();
            }
            Ok(v as u16)
        } else {
            Err(BinaryError::UnexpectedEof)
        }
    }

    /// Reads a big-endian signed 16-bit integer.
    pub fn read_i16(&mut self) -> (r: Result<i16, BinaryError>)
        requires
            old(self).wf(),
        ensures
            final(self).wf(),
            final(self).data() == old(self).data(),
            old(self).remaining_spec() >= 2 ==> r == Ok::<i16, BinaryError>(
                sign_extend(nat_from_be(old(self).chunk(2)), 2) as i16,
            ) && final(self).pos() == old(self).pos() + 2,
            old(self).remaining_spec() < 2 ==> r == Err::<i16, BinaryError>(
                BinaryError::UnexpectedEof,
            ) && *final(self) == *old(self),
    {
        if self.remaining() >= 2 {
            let v = self.take_be(2);
            proof {
                lemma_pow256_table();
            }
            Ok(to_signed(v, 2) as i16)
        } else {
            Err(BinaryError::UnexpectedEof)
        }
    }

    /// Reads a little-endian signed 16-bit integer.
    pub fn read_i16_le(&mut self) -> (r: Result<i16, BinaryError>)
        requires
            old(self).wf(),
        ensures
            final(self).wf(),
            final(self).data() == old(self).data(),
            old(self).remaining_spec() >= 2 ==> r == Ok::<i16, BinaryError>(
                sign_extend(nat_from_le(old(self).chunk(2)), 2) as i16,
            ) && final(self).pos() == old(self).pos() + 2,
            old(self).remaining_spec() < 2 ==> r == Err::<i16, BinaryError>(
                BinaryError::UnexpectedEof,
            ) && *final(self) == *old(self),
    {
        if self.remaining() >= 2 {
            let v = self.take_le(2);
            proof {
                lemma_pow256_table();
            }
            Ok(to_signed(v, 2) as i16)
        } else {
            Err(BinaryError::UnexpectedEof)
        }
    }

    /// Reads a big-endian unsigned 24-bit integer into a 32-bit host value.
    pub fn read_u24(&mut self) -> (r: Result<u32, BinaryError>)
        requires
            old(self).wf(),
        ensures
            final(self).wf(),
            final(self).data() == old(self).data(),
            old(self).remaining_spec() >= 3 ==> r == Ok::<u32, BinaryError>(
                nat_from_be(old(self).chunk(3)) as u32,
            ) && final(self).pos() == old(self).pos() + 3,
            old(self).remaining_spec() < 3 ==> r == Err::<u32, BinaryError>(
                BinaryError::UnexpectedEof,
            ) && *final(self) == *old(self),
    {
        if self.remaining() >= 3 {
            let v = self.take_be(3);
            proof {
                lemma_pow256_table();
            }
            Ok(v as u32)
        } else {
            Err(BinaryError::UnexpectedEof)
        }
    }

    /// Reads a little-endian unsigned 24-bit integer into a 32-bit host value.
    pub fn read_u24_le(&mut self) -> (r: Result<u32, BinaryError>)
        requires
            old(self).wf(),
        ensures
            final(self).wf(),
            final(self).data() == old(self).data(),
            old(self).remaining_spec() >= 3 ==> r == Ok::<u32, BinaryError>(
                nat_from_le(old(self).chunk(3)) as u32,
            ) && final(self).pos() == old(self).pos() + 3,
            old(self).remaining_spec() < 3 ==> r == Err::<u32, BinaryError>(
                BinaryError::UnexpectedEof,
            ) && *final(self) == *old(self),
    {
        if self.remaining() >= 3 {
            let v = self.take_le(3);
            proof {
                lemma_pow256_table();
            }
            Ok(v as u32)
        } else {
            Err(BinaryError::UnexpectedEof)
        }
    }

    /// Reads a big-endian signed 24-bit integer into a 32-bit host value.
    pub fn read_i24(&mut self) -> (r: Result<i32, BinaryError>)
        requires
            old(self).wf(),
        ensures
            final(self).wf(),
            final(self).data() == old(self).data(),
            old(self).remaining_spec() >= 3 ==> r == Ok::<i32, BinaryError>(
                sign_extend(nat_from_be(old(self).chunk(3)), 3) as i32,
            ) && final(self).pos() == old(self).pos() + 3,
            old(self).remaining_spec() < 3 ==> r == Err::<i32, BinaryError>(
                BinaryError::UnexpectedEof,
            ) && *final(self) == *old(self),
    {
        if self.remaining() >= 3 {
            let v = self.take_be(3);
            proof {
                lemma_pow256_table();
            }
            Ok(to_signed(v, 3) as i32)
        } else {
            Err(BinaryError::UnexpectedEof)
        }
    }

    /// Reads a little-endian signed 24-bit integer into a 32-bit host value.
    pub fn read_i24_le(&mut self) -> (r: Result<i32, BinaryError>)
        requires
            old(self).wf(),
        ensures
            final(self).wf(),
            final(self).data() == old(self).data(),
            old(self).remaining_spec() >= 3 ==> r == Ok::<i32, BinaryError>(
                sign_extend(nat_from_le(old(self).chunk(3)), 3) as i32,
            ) && final(self).pos() == old(self).pos() + 3,
            old(self).remaining_spec() < 3 ==> r == Err::<i32, BinaryError>(
                BinaryError::UnexpectedEof,
            ) && *final(self) == *old(self),
    {
        if self.remaining() >= 3 {
            let v = self.take_le(3);
            proof {
                lemma_pow256_table();
            }
            Ok(to_signed(v, 3) as i32)
        } else {
            Err(BinaryError::UnexpectedEof)
        }
    }

    /// Reads a big-endian unsigned 32-bit integer.
    pub fn read_u32(&mut self) -> (r: Result<u32, BinaryError>)
        requires
            old(self).wf(),
        ensures
            final(self).wf(),
            final(self).data() == old(self).data(),
            old(self).remaining_spec() >= 4 ==> r == Ok::<u32, BinaryError>(
                nat_from_be(old(self).chunk(4)) as u32,
            ) && final(self).pos() == old(self).pos() + 4,
            old(self).remaining_spec() < 4 ==> r == Err::<u32, BinaryError>(
                BinaryError::UnexpectedEof,
            ) && *final(self) == *old(self),
    {
        if self.remaining() >= 4 {
            let v = self.take_be(4);
            proof {
                lemma_pow256_table();
            }
            Ok(v as u32)
        } else {
            Err(BinaryError::UnexpectedEof)
        }
    }

    /// Reads a little-endian unsigned 32-bit integer.
    pub fn read_u32_le(&mut self) -> (r: Result<u32, BinaryError>)
        requires
            old(self).wf(),
        ensures
            final(self).wf(),
            final(self).data() == old(self).data(),
            old(self).remaining_spec() >= 4 ==> r == Ok::<u32, BinaryError>(
                nat_from_le(old(self).chunk(4)) as u32,
            ) && final(self).pos() == old(self).pos() + 4,
            old(self).remaining_spec() < 4 ==> r == Err::<u32, BinaryError>(
                BinaryError::UnexpectedEof,
            ) && *final(self) == *old(self),
    {
        if self.remaining() >= 4 {
            let v = self.take_le(4);
            proof {
                lemma_pow256_table();
            }
            Ok(v as u32)
        } else {
            Err(BinaryError::UnexpectedEof)
        }
    }

    /// Reads a big-endian signed 32-bit integer.
    pub fn read_i32(&mut self) -> (r: Result<i32, BinaryError>)
        requires
            old(self).wf(),
        ensures
            final(self).wf(),
            final(self).data() == old(self).data(),
            old(self).remaining_spec() >= 4 ==> r == Ok::<i32, BinaryError>(
                sign_extend(nat_from_be(old(self).chunk(4)), 4) as i32,
            ) && final(self).pos() == old(self).pos() + 4,
            old(self).remaining_spec() < 4 ==> r == Err::<i32, BinaryError>(
                BinaryError::UnexpectedEof,
            ) && *final(self) == *old(self),
    {
        if self.remaining() >= 4 {
            let v = self.take_be(4);
            proof {
                lemma_pow256_table();
            }
            Ok(to_signed(v, 4) as i32)
        } else {
            Err(BinaryError::UnexpectedEof)
        }
    }

    /// Reads a little-endian signed 32-bit integer.
    pub fn read_i32_le(&mut self) -> (r: Result<i32, BinaryError>)
        requires
            old(self).wf(),
        ensures
            final(self).wf(),
            final(self).data() == old(self).data(),
            old(self).remaining_spec() >= 4 ==> r == Ok::<i32, BinaryError>(
                sign_extend(nat_from_le(old(self).chunk(4)), 4) as i32,
            ) && final(self).pos() == old(self).pos() + 4,
            old(self).remaining_spec() < 4 ==> r == Err::<i32, BinaryError>(
                BinaryError::UnexpectedEof,
            ) && *final(self) == *old(self),
    {
        if self.remaining() >= 4 {
            let v = self.take_le(4);
            proof {
                lemma_pow256_table();
            }
            Ok(to_signed(v, 4) as i32)
        } else {
            Err(BinaryError::UnexpectedEof)
        }
    }

    /// Reads a big-endian unsigned 64-bit integer.
    pub fn read_u64(&mut self) -> (r: Result<u64, BinaryError>)
        requires
            old(self).wf(),
        ensures
            final(self).wf(),
            final(self).data() == old(self).data(),
            old(self).remaining_spec() >= 8 ==> r == Ok::<u64, BinaryError>(
                nat_from_be(old(self).chunk(8)) as u64,
            ) && final(self).pos() == old(self).pos() + 8,
            old(self).remaining_spec() < 8 ==> r == Err::<u64, BinaryError>(
                BinaryError::UnexpectedEof,
            ) && *final(self) == *old(self),
    {
        if self.remaining() >= 8 {
            let v = self.take_be(8);
            proof {
                lemma_pow256_table();
            }
            Ok(v as u64)
        } else {
            Err(BinaryError::UnexpectedEof)
        }
    }

    /// Reads a little-endian unsigned 64-bit integer.
    pub fn read_u64_le(&mut self) -> (r: Result<u64, BinaryError>)
        requires
            old(self).wf(),
        ensures
            final(self).wf(),
            final(self).data() == old(self).data(),
            old(self).remaining_spec() >= 8 ==> r == Ok::<u64, BinaryError>(
                nat_from_le(old(self).chunk(8)) as u64,
            ) && final(self).pos() == old(self).pos() + 8,
            old(self).remaining_spec() < 8 ==> r == Err::<u64, BinaryError>(
                BinaryError::UnexpectedEof,
            ) && *final(self) == *old(self),
    {
        if self.remaining() >= 8 {
            let v = self.take_le(8);
            proof {
                lemma_pow256_table();
            }
            Ok(v as u64)
        } else {
            Err(BinaryError::UnexpectedEof)
        }
    }

    /// Reads a big-endian signed 64-bit integer.
    pub fn read_i64(&mut self) -> (r: Result<i64, BinaryError>)
        requires
            old(self).wf(),
        ensures
            final(self).wf(),
            final(self).data() == old(self).data(),
            old(self).remaining_spec() >= 8 ==> r == Ok::<i64, BinaryError>(
                sign_extend(nat_from_be(old(self).chunk(8)), 8) as i64,
            ) && final(self).pos() == old(self).pos() + 8,
            old(self).remaining_spec() < 8 ==> r == Err::<i64, BinaryError>(
                BinaryError::UnexpectedEof,
            ) && *final(self) == *old(self),
    {
        if self.remaining() >= 8 {
            let v = self.take_be(8);
            proof {
                lemma_pow256_table();
            }
            Ok(to_signed(v, 8) as i64)
        } else {
            Err(BinaryError::UnexpectedEof)
        }
    }

    /// Reads a little-endian signed 64-bit integer.
    pub fn read_i64_le(&mut self) -> (r: Result<i64, BinaryError>)
        requires
            old(self).wf(),
        ensures
            final(self).wf(),
            final(self).data() == old(self).data(),
            old(self).remaining_spec() >= 8 ==> r == Ok::<i64, BinaryError>(
                sign_extend(nat_from_le(old(self).chunk(8)), 8) as i64,
            ) && final(self).pos() == old(self).pos() + 8,
            old(self).remaining_spec() < 8 ==> r == Err::<i64, BinaryError>(
                BinaryError::UnexpectedEof,
            ) && *final(self) == *old(self),
    {
        if self.remaining() >= 8 {
            let v = self.take_le(8);
            proof {
                lemma_pow256_table();
            }
            Ok(to_signed(v, 8) as i64)
        } else {
            Err(BinaryError::UnexpectedEof)
        }
    }

    /// Reads a big-endian unsigned 128-bit integer.
    pub fn read_u128(&mut self) -> (r: Result<u128, BinaryError>)
        requires
            old(self).wf(),
        ensures
            final(self).wf(),
            final(self).data() == old(self).data(),
            old(self).remaining_spec() >= 16 ==> r == Ok::<u128, BinaryError>(
                nat_from_be(old(self).chunk(16)) as u128,
            ) && final(self).pos() == old(self).pos() + 16,
            old(self).remaining_spec() < 16 ==> r == Err::<u128, BinaryError>(
                BinaryError::UnexpectedEof,
            ) && *final(self) == *old(self),
    {
        if self.remaining() >= 16 {
            let v = self.take_be(16);
            Ok(v)
        } else {
            Err(BinaryError::UnexpectedEof)
        }
    }

    /// Reads a little-endian unsigned 128-bit integer.
    pub fn read_u128_le(&mut self) -> (r: Result<u128, BinaryError>)
        requires
            old(self).wf(),
        ensures
            final(self).wf(),
            final(self).data() == old(self).data(),
            old(self).remaining_spec() >= 16 ==> r == Ok::<u128, BinaryError>(
                nat_from_le(old(self).chunk(16)) as u128,
            ) && final(self).pos() == old(self).pos() + 16,
            old(self).remaining_spec() < 16 ==> r == Err::<u128, BinaryError>(
                BinaryError::UnexpectedEof,
            ) && *final(self) == *old(self),
    {
        if self.remaining() >= 16 {
            let v = self.take_le(16);
            Ok(v)
        } else {
            Err(BinaryError::UnexpectedEof)
        }
    }

    /// Reads a big-endian signed 128-bit integer.
    pub fn read_i128(&mut self) -> (r: Result<i128, BinaryError>)
        requires
            old(self).wf(),
        ensures
            final(self).wf(),
            final(self).data() == old(self).data(),
            old(self).remaining_spec() >= 16 ==> r == Ok::<i128, BinaryError>(
                sign_extend(nat_from_be(old(self).chunk(16)), 16) as i128,
            ) && final(self).pos() == old(self).pos() + 16,
            old(self).remaining_spec() < 16 ==> r == Err::<i128, BinaryError>(
                BinaryError::UnexpectedEof,
            ) && *final(self) == *old(self),
    {
        if self.remaining() >= 16 {
            let v = self.take_be(16);
            Ok(to_signed(v, 16))
        } else {
            Err(BinaryError::UnexpectedEof)
        }
    }

    /// Reads a little-endian signed 128-bit integer.
    pub fn read_i128_le(&mut self) -> (r: Result<i128, BinaryError>)
        requires
            old(self).wf(),
        ensures
            final(self).wf(),
            final(self).data() == old(self).data(),
            old(self).remaining_spec() >= 16 ==> r == Ok::<i128, BinaryError>(
                sign_extend(nat_from_le(old(self).chunk(16)), 16) as i128,
            ) && final(self).pos() == old(self).pos() + 16,
            old(self).remaining_spec() < 16 ==> r == Err::<i128, BinaryError>(
                BinaryError::UnexpectedEof,
            ) && *final(self) == *old(self),
    {
        if self.remaining() >= 16 {
            let v = self.take_le(16);
            Ok(to_signed(v, 16))
        } else {
            Err(BinaryError::UnexpectedEof)
        }
    }

    /// Reads a big-endian unsigned integer of `size` bytes.
    pub fn read_uint(&mut self, size: usize) -> (r: Result<u64, BinaryError>)
        requires
            old(self).wf(),
            1 <= size <= 8,
        ensures
            final(self).wf(),
            final(self).data() == old(self).data(),
            old(self).remaining_spec() >= size ==> r == Ok::<u64, BinaryError>(
                nat_from_be(old(self).chunk(size as int)) as u64,
            ) && final(self).pos() == old(self).pos() + size,
            old(self).remaining_spec() < size ==> r == Err::<u64, BinaryError>(
                BinaryError::UnexpectedEof,
            ) && *final(self) == *old(self),
    {
        if self.remaining() >= size {
            let v = self.take_be(size);
            proof {
                lemma_pow256_mono(size as nat, 8);
                lemma_pow256_table();
            }
            Ok(v as u64)
        } else {
            Err(BinaryError::UnexpectedEof)
        }
    }

    /// Reads a little-endian unsigned integer of `size` bytes.
    pub fn read_uint_le(&mut self, size: usize) -> (r: Result<u64, BinaryError>)
        requires
            old(self).wf(),
            1 <= size <= 8,
        ensures
            final(self).wf(),
            final(self).data() == old(self).data(),
            old(self).remaining_spec() >= size ==> r == Ok::<u64, BinaryError>(
                nat_from_le(old(self).chunk(size as int)) as u64,
            ) && final(self).pos() == old(self).pos() + size,
            old(self).remaining_spec() < size ==> r == Err::<u64, BinaryError>(
                BinaryError::UnexpectedEof,
            ) && *final(self) == *old(self),
    {
        if self.remaining() >= size {
            let v = self.take_le(size);
            proof {
                lemma_pow256_mono(size as nat, 8);
                lemma_pow256_table();
            }
            Ok(v as u64)
        } else {
            Err(BinaryError::UnexpectedEof)
        }
    }

    /// Reads a big-endian signed integer of `size` bytes.
    pub fn read_int(&mut self, size: usize) -> (r: Result<i64, BinaryError>)
        requires
            old(self).wf(),
            1 <= size <= 8,
        ensures
            final(self).wf(),
            final(self).data() == old(self).data(),
            old(self).remaining_spec() >= size ==> r == Ok::<i64, BinaryError>(
                sign_extend(nat_from_be(old(self).chunk(size as int)), size as nat) as i64,
            ) && final(self).pos() == old(self).pos() + size,
            old(self).remaining_spec() < size ==> r == Err::<i64, BinaryError>(
                BinaryError::UnexpectedEof,
            ) && *final(self) == *old(self),
    {
        if self.remaining() >= size {
            let v = self.take_be(size);
            proof {
                lemma_pow256_mono(size as nat, 8);
                lemma_pow256_table();
            }
            Ok(to_signed(v, size) as i64)
        } else {
            Err(BinaryError::UnexpectedEof)
        }
    }

    /// Reads a little-endian signed integer of `size` bytes.
    pub fn read_int_le(&mut self, size: usize) -> (r: Result<i64, BinaryError>)
        requires
            old(self).wf(),
            1 <= size <= 8,
        ensures
            final(self).wf(),
            final(self).data() == old(self).data(),
            old(self).remaining_spec() >= size ==> r == Ok::<i64, BinaryError>(
                sign_extend(nat_from_le(old(self).chunk(size as int)), size as nat) as i64,
            ) && final(self).pos() == old(self).pos() + size,
            old(self).remaining_spec() < size ==> r == Err::<i64, BinaryError>(
                BinaryError::UnexpectedEof,
            ) && *final(self) == *old(self),
    {
        if self.remaining() >= size {
            let v = self.take_le(size);
            proof {
                lemma_pow256_mono(size as nat, 8);
                lemma_pow256_table();
            }
            Ok(to_signed(v, size) as i64)
        } else {
            Err(BinaryError::UnexpectedEof)
        }
    }

    /// Reads one byte as a boolean: zero is false, any nonzero value is true.
    pub fn read_bool(&mut self) -> (r: Result<bool, BinaryError>)
        requires
            old(self).wf(),
        ensures
            final(self).wf(),
            final(self).data() == old(self).data(),
            old(self).remaining_spec() >= 1 ==> r == Ok::<bool, BinaryError>(
                old(self).data()[old(self).pos()] != 0,
            ) && final(self).pos() == old(self).pos() + 1,
            old(self).remaining_spec() < 1 ==> r == Err::<bool, BinaryError>(
                BinaryError::UnexpectedEof,
            ) && *final(self) == *old(self),
    {
        if self.pos < self.buf.len() {
            let b = self.buf[self.pos];
            self.pos = self.pos + 1;
            Ok(b != 0)
        } else {
            Err(BinaryError::UnexpectedEof)
        }
    }

    /// Reads a LEB128 integer of at most `max` bytes, by lookahead: on any
    /// failure the cursor is left untouched.
    fn read_varint_max(&mut self, max: usize) -> (r: Result<u128, BinaryError>)
        requires
            old(self).wf(),
            1 <= max <= 18,
        ensures
            final(self).wf(),
            final(self).data() == old(self).data(),
            match parse_varint(old(self).data(), old(self).pos(), max as nat) {
                VarParse::Done(v, end) => r == Ok::<u128, BinaryError>(v as u128)
                    && final(self).pos() == end,
                VarParse::Eof => r == Err::<u128, BinaryError>(BinaryError::UnexpectedEof)
                    && *final(self) == *old(self),
                VarParse::Overflow => r == Err::<u128, BinaryError>(BinaryError::InvalidData)
                    && *final(self) == *old(self),
            },
    {
        let ghost data = self.data();
        let ghost pos0 = self.pos();
        let mut num: u128 = 0;
        let mut mult: u128 = 1;
        let mut i: usize = 0;
        proof {
            lemma_pow128_pos(0);
        }
        while i < max
            invariant
                old(self).wf(),
                1 <= max <= 18,
                i <= max,
                *self == *old(self),
                data == old(self).data(),
                pos0 == old(self).pos(),
                mult as nat == pow128(i as nat),
                (num as nat) < pow128(i as nat),
                parse_varint(data, pos0, max as nat) == (match parse_varint(
                    data,
                    pos0 + i,
                    (max - i) as nat,
                ) {
                    VarParse::Done(v, e) => VarParse::Done((num as nat) + (mult as nat) * v, e),
                    VarParse::Eof => VarParse::Eof,
                    VarParse::Overflow => VarParse::Overflow,
                }),
            decreases max - i,
        {
            let b = match self.peek_ahead(i) {
                Ok(b) => b,
                Err(_) => {
                    proof {
                        assert(pos0 + i >= data.len());
                        assert(parse_varint(data, pos0 + i, (max - i) as nat) == VarParse::Eof);
                    }
                    return Err(BinaryError::UnexpectedEof);
                },
            };
            proof {
                lemma_pow128_mono(i as nat + 1, 18);
                lemma_pow128_table();
            }
            if b < 128 {
                proof {
                    assert(parse_varint(data, pos0 + i, (max - i) as nat) == VarParse::Done(
                        b as nat,
                        pos0 + i + 1,
                    ));
                    assert(num + (b as nat) * mult < 128 * (mult as nat)) by (nonlinear_arith)
                        requires
                            (num as nat) < (mult as nat),
                            b < 128,
                    ;
                    assert(128 * (mult as nat) == pow128(i as nat + 1));
                    assert((num as nat) + (b as nat) * (mult as nat) == (num as nat) + (
                    mult as nat) * (b as nat)) by (nonlinear_arith);
                }
                let v = num + (b as u128) * mult;
                self.advance(i + 1);
                return Ok(v);
            }
            let ghost pnum = num as nat;
            let ghost pmult = mult as nat;
            let ghost g = (b - 128) as nat;
            proof {
                assert(num + g * mult < 128 * (mult as nat)) by (nonlinear_arith)
                    requires
                        (num as nat) < (mult as nat),
                        0 <= g < 128,
                ;
                assert(128 * (mult as nat) == pow128(i as nat + 1));
            }
            num = num + ((b - 128) as u128) * mult;
            mult = mult * 128;
            i = i + 1;
            proof {
                let inner = parse_varint(data, pos0 + i, (max - i) as nat);
                assert(parse_varint(data, pos0 + (i - 1), (max - (i - 1)) as nat) == (match inner {
                    VarParse::Done(v, e) => VarParse::Done((g + 128 * v) as nat, e),
                    VarParse::Eof => VarParse::Eof,
                    VarParse::Overflow => VarParse::Overflow,
                }));
                assert((num as nat) == pnum + pmult * g) by (nonlinear_arith)
                    requires
                        (num as nat) == pnum + g * pmult,
                ;
                match inner {
                    VarParse::Done(v, e) => {
                        assert((num as nat) + (mult as nat) * v == pnum + pmult * (g + 128 * v))
                            by (nonlinear_arith)
                            requires
                                (num as nat) == pnum + pmult * g,
                                (mult as nat) == pmult * 128,
                        ;
                    },
                    _ => {},
                }
            }
        }
        proof {
            assert((max - i) as nat == 0);
            assert(parse_varint(data, pos0 + i, 0) == VarParse::Overflow);
        }
        Err(BinaryError::InvalidData)
    }

    /// Reads a variable-length unsigned 32-bit integer: at most five LEB128
    /// bytes, whose value is taken modulo `2^32`.  A truncated stream leaves
    /// the cursor unchanged.
    pub fn read_var_u32(&mut self) -> (r: Result<u32, BinaryError>)
        requires
            old(self).wf(),
        ensures
            final(self).wf(),
            final(self).data() == old(self).data(),
            match parse_varint(old(self).data(), old(self).pos(), 5) {
                VarParse::Done(v, end) => r == Ok::<u32, BinaryError>((v % 0x100000000) as u32)
                    && final(self).pos() == end,
                VarParse::Eof => r == Err::<u32, BinaryError>(BinaryError::UnexpectedEof)
                    && *final(self) == *old(self),
                VarParse::Overflow => r == Err::<u32, BinaryError>(BinaryError::InvalidData)
                    && *final(self) == *old(self),
            },
    {
        proof {
            lemma_parse_varint_bounds(old(self).data(), old(self).pos(), 5);
            lemma_pow128_mono(5, 18);
            lemma_pow128_table();
        }
        match self.read_varint_max(5) {
            Ok(v) => Ok((v % 0x100000000) as u32),
            Err(e) => Err(e),
        }
    }

    /// Reads a variable-length signed 32-bit integer: an unsigned varint
    /// carrying the zigzag form of the value.
    pub fn read_var_i32(&mut self) -> (r: Result<i32, BinaryError>)
        requires
            old(self).wf(),
        ensures
            final(self).wf(),
            final(self).data() == old(self).data(),
            match parse_varint(old(self).data(), old(self).pos(), 5) {
                VarParse::Done(v, end) => r == Ok::<i32, BinaryError>(
                    unzigzag(v % 0x100000000) as i32,
                ) && final(self).pos() == end,
                VarParse::Eof => r == Err::<i32, BinaryError>(BinaryError::UnexpectedEof)
                    && *final(self) == *old(self),
                VarParse::Overflow => r == Err::<i32, BinaryError>(BinaryError::InvalidData)
                    && *final(self) == *old(self),
            },
    {
        let u = match self.read_var_u32() {
            Ok(u) => u,
            Err(e) => {
                return Err(e);
            },
        };
        if u % 2 == 0 {
            Ok((u / 2) as i32)
        } else {
            Ok(-((u / 2) as i32) - 1)
        }
    }

    /// Reads a variable-length unsigned 64-bit integer: at most ten LEB128
    /// bytes, whose value is taken modulo `2^64`.
    pub fn read_var_u64(&mut self) -> (r: Result<u64, BinaryError>)
        requires
            old(self).wf(),
        ensures
            final(self).wf(),
            final(self).data() == old(self).data(),
            match parse_varint(old(self).data(), old(self).pos(), 10) {
                VarParse::Done(v, end) => r == Ok::<u64, BinaryError>(
                    (v % 0x10000000000000000) as u64,
                ) && final(self).pos() == end,
                VarParse::Eof => r == Err::<u64, BinaryError>(BinaryError::UnexpectedEof)
                    && *final(self) == *old(self),
                VarParse::Overflow => r == Err::<u64, BinaryError>(BinaryError::InvalidData)
                    && *final(self) == *old(self),
            },
    {
        proof {
            lemma_parse_varint_bounds(old(self).data(), old(self).pos(), 10);
            lemma_pow128_mono(10, 18);
            lemma_pow128_table();
        }
        match self.read_varint_max(10) {
            Ok(v) => Ok((v % 0x10000000000000000) as u64),
            Err(e) => Err(e),
        }
    }

    /// Reads a variable-length signed 64-bit integer: an unsigned varint
    /// carrying the zigzag form of the value.
    pub fn read_var_i64(&mut self) -> (r: Result<i64, BinaryError>)
        requires
            old(self).wf(),
        ensures
            final(self).wf(),
            final(self).data() == old(self).data(),
            match parse_varint(old(self).data(), old(self).pos(), 10) {
                VarParse::Done(v, end) => r == Ok::<i64, BinaryError>(
                    unzigzag(v % 0x10000000000000000) as i64,
                ) && final(self).pos() == end,
                VarParse::Eof => r == Err::<i64, BinaryError>(BinaryError::UnexpectedEof)
                    && *final(self) == *old(self),
                VarParse::Overflow => r == Err::<i64, BinaryError>(BinaryError::InvalidData)
                    && *final(self) == *old(self),
            },
    {
        let u = match self.read_var_u64() {
            Ok(u) => u,
            Err(e) => {
                return Err(e);
            },
        };
        if u % 2 == 0 {
            Ok((u / 2) as i64)
        } else {
            Ok(-((u / 2) as i64) - 1)
        }
    }

    /// Reads exactly `n` raw bytes, or fails without moving the cursor.
    pub fn read_exact(&mut self, n: usize) -> (r: Result<Vec<u8>, BinaryError>)
        requires
            old(self).wf(),
        ensures
            final(self).wf(),
            final(self).data() == old(self).data(),
            old(self).remaining_spec() >= n ==> (r matches Ok(v) && v@ == old(self).chunk(n as int)
                && final(self).pos() == old(self).pos() + n),
            old(self).remaining_spec() < n ==> r == Err::<Vec<u8>, BinaryError>(
                BinaryError::UnexpectedEof,
            ) && *final(self) == *old(self),
    {
        if self.remaining() >= n {
            let mut out: Vec<u8> = Vec::new();
            let mut i: usize = 0;
            while i < n
                invariant
                    old(self).wf(),
                    *self == *old(self),
                    i <= n <= old(self).remaining_spec(),
                    out@ == old(self).data().subrange(old(self).pos(), old(self).pos() + i),
                decreases n - i,
            {
                let len = self.buf.len();
                assert(self.pos + i < len);
                out.push(self.buf[self.pos + i]);
                proof {
                    assert(out@ =~= old(self).data().subrange(
                        old(self).pos(),
                        old(self).pos() + i + 1,
                    ));
                }
                i = i + 1;
            }
            self.advance(n);
            Ok(out)
        } else {
            Err(BinaryError::UnexpectedEof)
        }
    }

    /// Reads a length-prefixed slice: a variable-length unsigned 32-bit
    /// count, then that many raw bytes.  On any failure the cursor is left
    /// unchanged.
    pub fn read_sized_slice(&mut self) -> (r: Result<Vec<u8>, BinaryError>)
        requires
            old(self).wf(),
        ensures
            final(self).wf(),
            final(self).data() == old(self).data(),
            match parse_varint(old(self).data(), old(self).pos(), 5) {
                VarParse::Done(v, end) => {
                    let n = v % 0x100000000;
                    if end + n <= old(self).data().len() {
                        r matches Ok(out) && out@ == old(self).data().subrange(end, end + n)
                            && final(self).pos() == end + n
                    } else {
                        r == Err::<Vec<u8>, BinaryError>(BinaryError::UnexpectedEof) && final(self).pos()
                            == old(self).pos()
                    }
                },
                VarParse::Eof => r == Err::<Vec<u8>, BinaryError>(BinaryError::UnexpectedEof)
                    && final(self).pos() == old(self).pos(),
                VarParse::Overflow => r == Err::<Vec<u8>, BinaryError>(BinaryError::InvalidData)
                    && final(self).pos() == old(self).pos(),
            },
    {
        let saved = self.pos;
        let n = match self.read_var_u32() {
            Ok(n) => n,
            Err(e) => {
                return Err(e);
            },
        };
        proof {
            lemma_parse_varint_bounds(old(self).data(), old(self).pos(), 5);
        }
        if (n as usize) <= self.buf.len() - self.pos {
            match self.read_exact(n as usize) {
                Ok(out) => Ok(out),
                Err(_) => vstd::pervasive::unreached(),
            }
        } else {
            self.pos = saved;
            Err(BinaryError::UnexpectedEof)
        }
    }

    /// Reads a length-prefixed string: a variable-length unsigned 32-bit
    /// length, then that many UTF-8 bytes.  Fails with `InvalidData` on
    /// malformed UTF-8, and leaves the cursor unchanged on any failure.
    pub fn read_string(&mut self) -> (r: Result<String, BinaryError>)
        requires
            old(self).wf(),
        ensures
            final(self).wf(),
            final(self).data() == old(self).data(),
            match parse_varint(old(self).data(), old(self).pos(), 5) {
                VarParse::Done(v, end) => {
                    let n = v % 0x100000000;
                    if end + n <= old(self).data().len() {
                        if valid_utf8(old(self).data().subrange(end, end + n)) {
                            r matches Ok(s) && s@ == decode_utf8(
                                old(self).data().subrange(end, end + n),
                            ) && final(self).pos() == end + n
                        } else {
                            r == Err::<String, BinaryError>(BinaryError::InvalidData)
                                && final(self).pos() == old(self).pos()
                        }
                    } else {
                        r == Err::<String, BinaryError>(BinaryError::UnexpectedEof) && final(self).pos()
                            == old(self).pos()
                    }
                },
                VarParse::Eof => r == Err::<String, BinaryError>(BinaryError::UnexpectedEof)
                    && final(self).pos() == old(self).pos(),
                VarParse::Overflow => r == Err::<String, BinaryError>(BinaryError::InvalidData)
                    && final(self).pos() == old(self).pos(),
            },
    {
        let saved = self.pos;
        let n = match self.read_var_u32() {
            Ok(n) => n,
            Err(e) => {
                return Err(e);
            },
        };
        proof {
            lemma_parse_varint_bounds(old(self).data(), old(self).pos(), 5);
        }
        if (n as usize) <= self.buf.len() - self.pos {
            match self.read_exact(n as usize) {
                Ok(bytes) => {
                    match string_from_utf8(bytes) {
                        Some(s) => Ok(s),
                        None => {
                            self.pos = saved;
                            Err(BinaryError::InvalidData)
                        },
                    }
                },
                Err(_) => vstd::pervasive::unreached(),
            }
        } else {
            self.pos = saved;
            Err(BinaryError::UnexpectedEof)
        }
    }

    /// Reads a character as its 32-bit big-endian code point; a value that is
    /// not a Unicode scalar fails with `InvalidData` and leaves the cursor
    /// unchanged.
    pub fn read_char(&mut self) -> (r: Result<char, BinaryError>)
        requires
            old(self).wf(),
        ensures
            final(self).wf(),
            final(self).data() == old(self).data(),
            old(self).remaining_spec() >= 4 ==> {
                let u = nat_from_be(old(self).chunk(4)) as u32;
                if is_scalar(u) {
                    r matches Ok(c) && c as u32 == u && final(self).pos() == old(self).pos() + 4
                } else {
                    r == Err::<char, BinaryError>(BinaryError::InvalidData)
                        && final(self).pos() == old(self).pos()
                }
            },
            old(self).remaining_spec() < 4 ==> r == Err::<char, BinaryError>(
                BinaryError::UnexpectedEof,
            ) && final(self).pos() == old(self).pos(),
    {
        let saved = self.pos;
        proof {
            if old(self).remaining_spec() >= 4 {
                crate::wire::lemma_nat_from_be_bound(old(self).chunk(4));
                lemma_pow256_table();
            }
        }
        let u = match self.read_u32() {
            Ok(u) => u,
            Err(e) => {
                return Err(e);
            },
        };
        match char_from_u32(u) {
            Some(c) => Ok(c),
            None => {
                self.pos = saved;
                Err(BinaryError::InvalidData)
            },
        }
    }

    /// The bytes that remain to be read.
    pub fn as_slice(&self) -> (r: &[u8])
        requires
            self.wf(),
        ensures
            r@ == self.data().subrange(self.pos(), self.data().len() as int),
    {
        vstd::slice::slice_subrange(self.buf.as_slice(), self.pos, self.buf.len())
    }
}

/// Copies a byte slice into an owned vector.
pub fn to_byte_vec(s: &[u8]) -> (r: Vec<u8>)
    ensures
        r@ == s@,
{
    let mut out: Vec<u8> = Vec::new();
    let mut i: usize = 0;
    let n = s.len();
    while i < n
        invariant
            n == s@.len(),
            i <= n,
            out@ == s@.subrange(0, i as int),
        decreases n - i,
    {
        out.push(s[i]);
        proof {
            assert(out@ =~= s@.subrange(0, i + 1));
        }
        i = i + 1;
    }
    proof {
        assert(s@.subrange(0, n as int) =~= s@);
    }
    out
}

/// Relies on `char::from_u32`: it returns `Some` exactly on Unicode scalar
/// values, and the returned character has the given numeric value.
#[verifier::external_body]
fn char_from_u32(u: u32) -> (r: Option<char>)
    ensures
        match r {
            Some(c) => is_scalar(u) && c as u32 == u,
            None => !is_scalar(u),
        },
{
    char::from_u32(u)
}

/// Relies on `String::from_utf8`: it succeeds exactly on valid UTF-8 input
/// and returns the string those bytes encode.
#[verifier::external_body]
fn string_from_utf8(bytes: Vec<u8>) -> (r: Option<String>)
    ensures
        match r {
            Some(s) => valid_utf8(bytes@) && s@ == decode_utf8(bytes@),
            None => !valid_utf8(bytes@),
        },
{
    String::from_utf8(bytes).ok()
}

/// A panic-free, append-only writer over a growable byte buffer.
///
/// The buffer grows as needed, so writes never run out of room; every write
/// appends the wire form of its argument and returns `Ok`.
pub struct ByteWriter {
    buf: Vec<u8>,
}

impl View for ByteWriter {
    type V = Seq<u8>;

    closed spec fn view(&self) -> Seq<u8> {
        self.buf@
    }
}

impl ByteWriter {
    /// Makes an empty writer.
    pub fn new() -> (r: ByteWriter)
        ensures
            r@ == Seq::<u8>::empty(),
    {
        ByteWriter { buf: Vec::new() }
    }

    /// Appends the `n` low-order bytes of `v`, most significant first.
    fn put_be(&mut self, v: u128, n: usize)
        requires
            n <= 16,
        ensures
            final(self)@ == old(self)@ + be_bytes(v as nat, n as nat),
        decreases n,
    {
        if n == 0 {
            assert(self@ =~= old(self)@ + be_bytes(v as nat, 0));
        } else {
            self.put_be(v / 256, n - 1);
            self.buf.push((v % 256) as u8);
            assert(self@ =~= old(self)@ + be_bytes(v as nat, n as nat));
        }
    }

    /// Appends the `n` low-order bytes of `v`, least significant first.
    fn put_le(&mut self, v: u128, n: usize)
        requires
            n <= 16,
        ensures
            final(self)@ == old(self)@ + le_bytes(v as nat, n as nat),
        decreases n,
    {
        if n == 0 {
            assert(self@ =~= old(self)@ + le_bytes(v as nat, 0));
        } else {
            self.buf.push((v % 256) as u8);
            self.put_le(v / 256, n - 1);
            assert(self@ =~= old(self)@ + le_bytes(v as nat, n as nat));
        }
    }

    /// Appends one byte.
    pub fn write_u8(&mut self, v: u8) -> (r: Result<(), BinaryError>)
        ensures
            r == Ok::<(), BinaryError>(()),
            final(self)@ == old(self)@ + seq![v],
    {
        self.buf.push(v);
        assert(self@ =~= old(self)@ + seq![v]);
        Ok(())
    }

    /// Appends one signed byte as its two's-complement form.
    pub fn write_i8(&mut self, v: i8) -> (r: Result<(), BinaryError>)
        ensures
            r == Ok::<(), BinaryError>(()),
            final(self)@ == old(self)@ + be_bytes(to_unsigned(v as int, 1), 1),
    {
        proof {
            lemma_pow256_table();
        }
        self.put_be(from_signed(v as i128, 1), 1);
        Ok(())
    }

    /// Appends a 16-bit integer, big-endian.
    pub fn write_u16(&mut self, v: u16) -> (r: Result<(), BinaryError>)
        ensures
            r == Ok::<(), BinaryError>(()),
            final(self)@ == old(self)@ + be_bytes(v as nat, 2),
    {
        self.put_be(v as u128, 2);
        Ok(())
    }

    /// Appends a 16-bit integer, little-endian.
    pub fn write_u16_le(&mut self, v: u16) -> (r: Result<(), BinaryError>)
        ensures
            r == Ok::<(), BinaryError>(()),
            final(self)@ == old(self)@ + le_bytes(v as nat, 2),
    {
        self.put_le(v as u128, 2);
        Ok(())
    }

    /// Appends a signed 16-bit integer, big-endian two's complement.
    pub fn write_i16(&mut self, v: i16) -> (r: Result<(), BinaryError>)
        ensures
            r == Ok::<(), BinaryError>(()),
            final(self)@ == old(self)@ + be_bytes(to_unsigned(v as int, 2), 2),
    {
        proof {
            lemma_pow256_table();
        }
        self.put_be(from_signed(v as i128, 2), 2);
        Ok(())
    }

    /// Appends a signed 16-bit integer, little-endian two's complement.
    pub fn write_i16_le(&mut self, v: i16) -> (r: Result<(), BinaryError>)
        ensures
            r == Ok::<(), BinaryError>(()),
            final(self)@ == old(self)@ + le_bytes(to_unsigned(v as int, 2), 2),
    {
        proof {
            lemma_pow256_table();
        }
        self.put_le(from_signed(v as i128, 2), 2);
        Ok(())
    }

    /// Appends the low 24 bits of `v`, big-endian.
    pub fn write_u24(&mut self, v: u32) -> (r: Result<(), BinaryError>)
        ensures
            r == Ok::<(), BinaryError>(()),
            final(self)@ == old(self)@ + be_bytes(v as nat % pow256(3), 3),
    {
        proof {
            lemma_pow256_table();
            crate::wire::lemma_be_bytes_low(v as nat, 3);
        }
        self.put_be(v as u128, 3);
        Ok(())
    }

    /// Appends the low 24 bits of `v`, little-endian.
    pub fn write_u24_le(&mut self, v: u32) -> (r: Result<(), BinaryError>)
        ensures
            r == Ok::<(), BinaryError>(()),
            final(self)@ == old(self)@ + le_bytes(v as nat % pow256(3), 3),
    {
        proof {
            lemma_pow256_table();
            crate::wire::lemma_le_bytes_low(v as nat, 3);
        }
        self.put_le(v as u128, 3);
        Ok(())
    }

    /// Appends a signed 24-bit integer, big-endian two's complement.
    pub fn write_i24(&mut self, v: i32) -> (r: Result<(), BinaryError>)
        requires
            -0x800000 <= v < 0x800000,
        ensures
            r == Ok::<(), BinaryError>(()),
            final(self)@ == old(self)@ + be_bytes(to_unsigned(v as int, 3), 3),
    {
        proof {
            lemma_pow256_table();
        }
        self.put_be(from_signed(v as i128, 3), 3);
        Ok(())
    }

    /// Appends a signed 24-bit integer, little-endian two's complement.
    pub fn write_i24_le(&mut self, v: i32) -> (r: Result<(), BinaryError>)
        requires
            -0x800000 <= v < 0x800000,
        ensures
            r == Ok::<(), BinaryError>(()),
            final(self)@ == old(self)@ + le_bytes(to_unsigned(v as int, 3), 3),
    {
        proof {
            lemma_pow256_table();
        }
        self.put_le(from_signed(v as i128, 3), 3);
        Ok(())
    }

    /// Appends a 32-bit integer, big-endian.
    pub fn write_u32(&mut self, v: u32) -> (r: Result<(), BinaryError>)
        ensures
            r == Ok::<(), BinaryError>(()),
            final(self)@ == old(self)@ + be_bytes(v as nat, 4),
    {
        self.put_be(v as u128, 4);
        Ok(())
    }

    /// Appends a 32-bit integer, little-endian.
    pub fn write_u32_le(&mut self, v: u32) -> (r: Result<(), BinaryError>)
        ensures
            r == Ok::<(), BinaryError>(()),
            final(self)@ == old(self)@ + le_bytes(v as nat, 4),
    {
        self.put_le(v as u128, 4);
        Ok(())
    }

    /// Appends a signed 32-bit integer, big-endian two's complement.
    pub fn write_i32(&mut self, v: i32) -> (r: Result<(), BinaryError>)
        ensures
            r == Ok::<(), BinaryError>(()),
            final(self)@ == old(self)@ + be_bytes(to_unsigned(v as int, 4), 4),
    {
        proof {
            lemma_pow256_table();
        }
        self.put_be(from_signed(v as i128, 4), 4);
        Ok(())
    }

    /// Appends a signed 32-bit integer, little-endian two's complement.
    pub fn write_i32_le(&mut self, v: i32) -> (r: Result<(), BinaryError>)
        ensures
            r == Ok::<(), BinaryError>(()),
            final(self)@ == old(self)@ + le_bytes(to_unsigned(v as int, 4), 4),
    {
        proof {
            lemma_pow256_table();
        }
        self.put_le(from_signed(v as i128, 4), 4);
        Ok(())
    }

    /// Appends a 64-bit integer, big-endian.
    pub fn write_u64(&mut self, v: u64) -> (r: Result<(), BinaryError>)
        ensures
            r == Ok::<(), BinaryError>(()),
            final(self)@ == old(self)@ + be_bytes(v as nat, 8),
    {
        self.put_be(v as u128, 8);
        Ok(())
    }

    /// Appends a 64-bit integer, little-endian.
    pub fn write_u64_le(&mut self, v: u64) -> (r: Result<(), BinaryError>)
        ensures
            r == Ok::<(), BinaryError>(()),
            final(self)@ == old(self)@ + le_bytes(v as nat, 8),
    {
        self.put_le(v as u128, 8);
        Ok(())
    }

    /// Appends a signed 64-bit integer, big-endian two's complement.
    pub fn write_i64(&mut self, v: i64) -> (r: Result<(), BinaryError>)
        ensures
            r == Ok::<(), BinaryError>(()),
            final(self)@ == old(self)@ + be_bytes(to_unsigned(v as int, 8), 8),
    {
        proof {
            lemma_pow256_table();
        }
        self.put_be(from_signed(v as i128, 8), 8);
        Ok(())
    }

    /// Appends a signed 64-bit integer, little-endian two's complement.
    pub fn write_i64_le(&mut self, v: i64) -> (r: Result<(), BinaryError>)
        ensures
            r == Ok::<(), BinaryError>(()),
            final(self)@ == old(self)@ + le_bytes(to_unsigned(v as int, 8), 8),
    {
        proof {
            lemma_pow256_table();
        }
        self.put_le(from_signed(v as i128, 8), 8);
        Ok(())
    }

    /// Appends a 128-bit integer, big-endian.
    pub fn write_u128(&mut self, v: u128) -> (r: Result<(), BinaryError>)
        ensures
            r == Ok::<(), BinaryError>(()),
            final(self)@ == old(self)@ + be_bytes(v as nat, 16),
    {
        self.put_be(v, 16);
        Ok(())
    }

    /// Appends a 128-bit integer, little-endian.
    pub fn write_u128_le(&mut self, v: u128) -> (r: Result<(), BinaryError>)
        ensures
            r == Ok::<(), BinaryError>(()),
            final(self)@ == old(self)@ + le_bytes(v as nat, 16),
    {
        self.put_le(v, 16);
        Ok(())
    }

    /// Appends a signed 128-bit integer, big-endian two's complement.
    pub fn write_i128(&mut self, v: i128) -> (r: Result<(), BinaryError>)
        ensures
            r == Ok::<(), BinaryError>(()),
            final(self)@ == old(self)@ + be_bytes(to_unsigned(v as int, 16), 16),
    {
        proof {
            lemma_pow256_table();
        }
        self.put_be(from_signed(v, 16), 16);
        Ok(())
    }

    /// Appends a signed 128-bit integer, little-endian two's complement.
    pub fn write_i128_le(&mut self, v: i128) -> (r: Result<(), BinaryError>)
        ensures
            r == Ok::<(), BinaryError>(()),
            final(self)@ == old(self)@ + le_bytes(to_unsigned(v as int, 16), 16),
    {
        proof {
            lemma_pow256_table();
        }
        self.put_le(from_signed(v, 16), 16);
        Ok(())
    }

    /// Appends the `size` low-order bytes of `v`, big-endian.
    pub fn write_uint(&mut self, v: u64, size: usize) -> (r: Result<(), BinaryError>)
        requires
            1 <= size <= 8,
        ensures
            r == Ok::<(), BinaryError>(()),
            final(self)@ == old(self)@ + be_bytes(v as nat % pow256(size as nat), size as nat),
    {
        proof {
            crate::wire::lemma_be_bytes_low(v as nat, size as nat);
        }
        self.put_be(v as u128, size);
        Ok(())
    }

    /// Appends the `size` low-order bytes of `v`, little-endian.
    pub fn write_uint_le(&mut self, v: u64, size: usize) -> (r: Result<(), BinaryError>)
        requires
            1 <= size <= 8,
        ensures
            r == Ok::<(), BinaryError>(()),
            final(self)@ == old(self)@ + le_bytes(v as nat % pow256(size as nat), size as nat),
    {
        proof {
            crate::wire::lemma_le_bytes_low(v as nat, size as nat);
        }
        self.put_le(v as u128, size);
        Ok(())
    }

    /// Appends a signed integer of `size` bytes, big-endian two's complement.
    pub fn write_int(&mut self, v: i64, size: usize) -> (r: Result<(), BinaryError>)
        requires
            1 <= size <= 8,
            -(pow256(size as nat) / 2) <= v < pow256(size as nat) / 2,
        ensures
            r == Ok::<(), BinaryError>(()),
            final(self)@ == old(self)@ + be_bytes(to_unsigned(v as int, size as nat), size as nat),
    {
        self.put_be(from_signed(v as i128, size), size);
        Ok(())
    }

    /// Appends a signed integer of `size` bytes, little-endian two's
    /// complement.
    pub fn write_int_le(&mut self, v: i64, size: usize) -> (r: Result<(), BinaryError>)
        requires
            1 <= size <= 8,
            -(pow256(size as nat) / 2) <= v < pow256(size as nat) / 2,
        ensures
            r == Ok::<(), BinaryError>(()),
            final(self)@ == old(self)@ + le_bytes(to_unsigned(v as int, size as nat), size as nat),
    {
        self.put_le(from_signed(v as i128, size), size);
        Ok(())
    }

    /// Appends a boolean as one byte: one for true, zero for false.
    pub fn write_bool(&mut self, b: bool) -> (r: Result<(), BinaryError>)
        ensures
            r == Ok::<(), BinaryError>(()),
            final(self)@ == old(self)@ + seq![bool_byte(b)],
    {
        self.buf.push(if b {
            1
        } else {
            0
        });
        assert(self@ =~= old(self)@ + seq![bool_byte(b)]);
        Ok(())
    }

    /// Appends the LEB128 encoding of `v`.
    fn write_varint_raw(&mut self, v: u128)
        ensures
            final(self)@ == old(self)@ + varint_bytes(v as nat),
        decreases v,
    {
        if v < 128 {
            self.buf.push(v as u8);
            assert(self@ =~= old(self)@ + varint_bytes(v as nat));
        } else {
            self.buf.push((v % 128 + 128) as u8);
            self.write_varint_raw(v / 128);
            assert(self@ =~= old(self)@ + varint_bytes(v as nat));
        }
    }

    /// Appends a variable-length unsigned 32-bit integer: at most five LEB128
    /// bytes.
    pub fn write_var_u32(&mut self, v: u32) -> (r: Result<(), BinaryError>)
        ensures
            r == Ok::<(), BinaryError>(()),
            final(self)@ == old(self)@ + varint_bytes(v as nat),
    {
        self.write_varint_raw(v as u128);
        Ok(())
    }

    /// Appends a variable-length signed 32-bit integer: the unsigned varint
    /// of its zigzag form.
    pub fn write_var_i32(&mut self, v: i32) -> (r: Result<(), BinaryError>)
        ensures
            r == Ok::<(), BinaryError>(()),
            final(self)@ == old(self)@ + varint_bytes(zigzag(v as int)),
    {
        let u: u32 = if v >= 0 {
            (v as u32) * 2
        } else {
            ((-(v + 1)) as u32) * 2 + 1
        };
        self.write_varint_raw(u as u128);
        Ok(())
    }

    /// Appends a variable-length unsigned 64-bit integer: at most ten LEB128
    /// bytes.
    pub fn write_var_u64(&mut self, v: u64) -> (r: Result<(), BinaryError>)
        ensures
            r == Ok::<(), BinaryError>(()),
            final(self)@ == old(self)@ + varint_bytes(v as nat),
    {
        self.write_varint_raw(v as u128);
        Ok(())
    }

    /// Appends a variable-length signed 64-bit integer: the unsigned varint
    /// of its zigzag form.
    pub fn write_var_i64(&mut self, v: i64) -> (r: Result<(), BinaryError>)
        ensures
            r == Ok::<(), BinaryError>(()),
            final(self)@ == old(self)@ + varint_bytes(zigzag(v as int)),
    {
        let u: u64 = if v >= 0 {
            (v as u64) * 2
        } else {
            ((-(v + 1)) as u64) * 2 + 1
        };
        self.write_varint_raw(u as u128);
        Ok(())
    }

    /// Appends raw bytes, with no prefix.
    pub fn write(&mut self, data: &[u8]) -> (r: Result<(), BinaryError>)
        ensures
            r == Ok::<(), BinaryError>(()),
            final(self)@ == old(self)@ + data@,
    {
        let mut i: usize = 0;
        let n = data.len();
        while i < n
            invariant
                n == data@.len(),
                i <= n,
                self@ == old(self)@ + data@.subrange(0, i as int),
            decreases n - i,
        {
            self.buf.push(data[i]);
            proof {
                assert(self@ =~= old(self)@ + data@.subrange(0, i + 1));
            }
            i = i + 1;
        }
        proof {
            assert(data@.subrange(0, n as int) =~= data@);
        }
        Ok(())
    }

    /// Appends a length-prefixed slice: a variable-length unsigned 32-bit
    /// count, then the bytes themselves.
    pub fn write_slice(&mut self, data: &[u8]) -> (r: Result<(), BinaryError>)
        requires
            data@.len() < 0x100000000,
        ensures
            r == Ok::<(), BinaryError>(()),
            final(self)@ == old(self)@ + varint_bytes(data@.len()) + data@,
    {
        let n = data.len();
        let _ = self.write_var_u32(n as u32);
        self.write(data)
    }

    /// Appends a length-prefixed string: the byte length of its UTF-8 form as
    /// a variable-length unsigned 32-bit integer, then the UTF-8 bytes.
    pub fn write_string(&mut self, s: &str) -> (r: Result<(), BinaryError>)
        requires
            encode_utf8(s@).len() < 0x100000000,
        ensures
            r == Ok::<(), BinaryError>(()),
            final(self)@ == old(self)@ + varint_bytes(encode_utf8(s@).len()) + encode_utf8(s@),
    {
        let bytes = s.as_bytes();
        let n = bytes.len();
        let _ = self.write_var_u32(n as u32);
        self.write(bytes)
    }

    /// Appends a character as its 32-bit big-endian code point.
    pub fn write_char(&mut self, c: char) -> (r: Result<(), BinaryError>)
        ensures
            r == Ok::<(), BinaryError>(()),
            final(self)@ == old(self)@ + be_bytes((c as u32) as nat, 4),
    {
        self.write_u32(c as u32)
    }

    /// The bytes written so far.
    pub fn as_slice(&self) -> (r: &[u8])
        ensures
            r@ == self@,
    {
        self.buf.as_slice()
    }

    /// Empties the buffer so the writer can be reused.
    pub fn clear(&mut self)
        ensures
            final(self)@ == Seq::<u8>::empty(),
    {
        self.buf.clear();
    }

    /// Gives up the writer and hands back the bytes it accumulated.
    pub fn into_vec(self) -> (r: Vec<u8>)
        ensures
            r@ == self@,
    {
        self.buf
    }
}

} // verus!
