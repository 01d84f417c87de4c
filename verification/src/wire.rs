//! The mathematical model of the wire format.
//!
//! Every encoder in this crate is specified as producing, and every decoder as
//! consuming, byte sequences described by the specification functions in this
//! module: fixed-width big- and little-endian integers, two's-complement
//! signed forms, LEB128 variable-length integers, and the zigzag mapping from
//! signed to unsigned integers.  The proof functions at the end state the
//! round-trip laws the format obeys.

use vstd::prelude::*;

verus! {

/// 256 raised to the power `n`: the number of values an `n`-byte field can hold.
pub open spec fn pow256(n: nat) -> nat
    decreases n,
{
    if n == 0 {
        1
    } else {
        256 * pow256((n - 1) as nat)
    }
}

/// 128 raised to the power `n`: the number of values `n` seven-bit groups can hold.
pub open spec fn pow128(n: nat) -> nat
    decreases n,
{
    if n == 0 {
        1
    } else {
        128 * pow128((n - 1) as nat)
    }
}

/// The `n` low-order bytes of `v`, most significant first (big-endian).
pub open spec fn be_bytes(v: nat, n: nat) -> Seq<u8>
    decreases n,
{
    if n == 0 {
        Seq::empty()
    } else {
        be_bytes(v / 256, (n - 1) as nat).push((v % 256) as u8)
    }
}

/// The `n` low-order bytes of `v`, least significant first (little-endian).
pub open spec fn le_bytes(v: nat, n: nat) -> Seq<u8>
    decreases n,
{
    if n == 0 {
        Seq::empty()
    } else {
        seq![(v % 256) as u8] + le_bytes(v / 256, (n - 1) as nat)
    }
}

/// The unsigned value of a big-endian byte sequence.
pub open spec fn nat_from_be(s: Seq<u8>) -> nat
    decreases s.len(),
{
    if s.len() == 0 {
        0
    } else {
        nat_from_be(s.drop_last()) * 256 + s.last() as nat
    }
}

/// The unsigned value of a little-endian byte sequence.
pub open spec fn nat_from_le(s: Seq<u8>) -> nat
    decreases s.len(),
{
    if s.len() == 0 {
        0
    } else {
        s.first() as nat + 256 * nat_from_le(s.drop_first())
    }
}

/// The `n`-byte two's-complement representative of the signed value `v`.
pub open spec fn to_unsigned(v: int, n: nat) -> nat {
    if v >= 0 {
        v as nat
    } else {
        (v + pow256(n)) as nat
    }
}

/// The signed value of an `n`-byte two's-complement representative `u`.
pub open spec fn sign_extend(u: nat, n: nat) -> int {
    if u < pow256(n) / 2 {
        u as int
    } else {
        u - pow256(n)
    }
}

/// The zigzag mapping from signed to unsigned integers: small magnitudes map
/// to small unsigned values, so that signed variable-length integers stay
/// short near zero.
pub open spec fn zigzag(v: int) -> nat {
    if v >= 0 {
        (2 * v) as nat
    } else {
        (-2 * v - 1) as nat
    }
}

/// The inverse of the zigzag mapping.
pub open spec fn unzigzag(u: nat) -> int {
    if u % 2 == 0 {
        (u / 2) as int
    } else {
        -((u / 2) as int) - 1
    }
}

/// The LEB128 encoding of `v`: seven value bits per byte, least significant
/// group first, continuation bit `0x80` on every byte but the last.
pub open spec fn varint_bytes(v: nat) -> Seq<u8>
    decreases v,
{
    if v < 128 {
        seq![v as u8]
    } else {
        seq![(v % 128 + 128) as u8] + varint_bytes(v / 128)
    }
}

/// What a bounded LEB128 parse of at most `max` bytes yields.
pub enum VarParse {
    /// The decoded value and the cursor position just past its last byte.
    Done(nat, int),
    /// The data ended while a continuation bit was still set.
    Eof,
    /// `max` bytes were read and the continuation bit was still set.
    Overflow,
}

/// Parses a LEB128 integer from `data` starting at `pos`, reading at most
/// `max` bytes.
pub open spec fn parse_varint(data: Seq<u8>, pos: int, max: nat) -> VarParse
    decreases max,
{
    if max == 0 {
        VarParse::Overflow
    } else if !(0 <= pos < data.len()) {
        VarParse::Eof
    } else if data[pos] < 128 {
        VarParse::Done(data[pos] as nat, pos + 1)
    } else {
        match parse_varint(data, pos + 1, (max - 1) as nat) {
            VarParse::Done(v, end) => VarParse::Done(((data[pos] - 128) + 128 * v) as nat, end),
            VarParse::Eof => VarParse::Eof,
            VarParse::Overflow => VarParse::Overflow,
        }
    }
}

/// A window into a buffer that matches `w` matches `w` piecewise.
pub proof fn lemma_subrange_of_matching(data: Seq<u8>, pos: int, w: Seq<u8>, a: int, b: int)
    requires
        0 <= pos,
        pos + w.len() <= data.len(),
        data.subrange(pos, pos + w.len() as int) == w,
        0 <= a <= b <= w.len(),
    ensures
        data.subrange(pos + a, pos + b) == w.subrange(a, b),
{
    assert forall|i: int| 0 <= i < b - a implies data.subrange(pos + a, pos + b)[i] == w.subrange(
        a,
        b,
    )[i] by {
        assert(data.subrange(pos, pos + w.len() as int)[a + i] == w[a + i]);
    }
    assert(data.subrange(pos + a, pos + b) =~= w.subrange(a, b));
}

/// A buffer that matches `w` over a window matches it byte for byte.
pub proof fn lemma_index_of_matching(data: Seq<u8>, pos: int, w: Seq<u8>, i: int)
    requires
        0 <= pos,
        pos + w.len() <= data.len(),
        data.subrange(pos, pos + w.len() as int) == w,
        0 <= i < w.len(),
    ensures
        data[pos + i] == w[i],
{
    assert(data.subrange(pos, pos + w.len() as int)[i] == w[i]);
}

/// `pow256` is positive and grows by factors of 256.
pub proof fn lemma_pow256_pos(n: nat)
    ensures
        pow256(n) >= 1,
    decreases n,
{
    if n > 0 {
        lemma_pow256_pos((n - 1) as nat);
    }
}

/// `pow128` is positive.
pub proof fn lemma_pow128_pos(n: nat)
    ensures
        pow128(n) >= 1,
    decreases n,
{
    if n > 0 {
        lemma_pow128_pos((n - 1) as nat);
    }
}

/// `pow128` never shrinks as the group count grows.
pub proof fn lemma_pow128_mono(a: nat, b: nat)
    requires
        a <= b,
    ensures
        pow128(a) <= pow128(b),
    decreases b,
{
    if a < b {
        lemma_pow128_mono(a, (b - 1) as nat);
        lemma_pow128_pos((b - 1) as nat);
    }
}

/// `pow256` never shrinks as the width grows.
pub proof fn lemma_pow256_mono(a: nat, b: nat)
    requires
        a <= b,
    ensures
        pow256(a) <= pow256(b),
    decreases b,
{
    if a < b {
        lemma_pow256_mono(a, (b - 1) as nat);
        lemma_pow256_pos((b - 1) as nat);
    }
}

/// The widths this crate uses, as concrete values.
pub proof fn lemma_pow256_table()
    ensures
        pow256(1) == 0x100,
        pow256(2) == 0x10000,
        pow256(3) == 0x1000000,
        pow256(4) == 0x100000000,
        pow256(8) == 0x10000000000000000,
        pow256(16) == 0x100000000000000000000000000000000,
    decreases 16int,
{
    reveal_with_fuel(pow256, 17);
}

/// The seven-bit group counts this crate uses, as concrete values.
pub proof fn lemma_pow128_table()
    ensures
        pow128(5) == 0x800000000,
        pow128(10) == 0x400000000000000000,
        pow128(18) == 0x40000000000000000000000000000000,
{
    reveal_with_fuel(pow128, 19);
}

/// A successful bounded LEB128 parse yields a value below `128^max` and ends
/// within `max` bytes, inside the buffer.
pub proof fn lemma_parse_varint_bounds(data: Seq<u8>, pos: int, max: nat)
    ensures
        parse_varint(data, pos, max) matches VarParse::Done(v, end) ==> v < pow128(max) && 0
            <= pos < end <= pos + max && end <= data.len(),
    decreases max,
{
    if max > 0 && 0 <= pos < data.len() && data[pos] < 128 {
        lemma_pow128_pos((max - 1) as nat);
    }
    if max > 0 && 0 <= pos < data.len() && data[pos] >= 128 {
        lemma_parse_varint_bounds(data, pos + 1, (max - 1) as nat);
        match parse_varint(data, pos + 1, (max - 1) as nat) {
            VarParse::Done(v, end) => {
                assert((data[pos] - 128) + 128 * v < 128 * pow128((max - 1) as nat))
                    by (nonlinear_arith)
                    requires
                        v < pow128((max - 1) as nat),
                        0 <= data[pos] - 128 < 128,
                ;
            },
            _ => {},
        }
    }
}

/// A big-endian encoding has exactly the requested width.
pub proof fn lemma_be_bytes_len(v: nat, n: nat)
    ensures
        be_bytes(v, n).len() == n,
    decreases n,
{
    if n > 0 {
        lemma_be_bytes_len(v / 256, (n - 1) as nat);
    }
}

/// A little-endian encoding has exactly the requested width.
pub proof fn lemma_le_bytes_len(v: nat, n: nat)
    ensures
        le_bytes(v, n).len() == n,
    decreases n,
{
    if n > 0 {
        lemma_le_bytes_len(v / 256, (n - 1) as nat);
    }
}

/// Only the `n` low-order bytes of a value reach an `n`-byte encoding.
pub proof fn lemma_be_bytes_low(v: nat, n: nat)
    ensures
        be_bytes(v % pow256(n), n) == be_bytes(v, n),
    decreases n,
{
    if n > 0 {
        let m = pow256((n - 1) as nat);
        lemma_pow256_pos((n - 1) as nat);
        vstd::arithmetic::div_mod::lemma_mod_breakdown(v as int, 256, m as int);
        let w = v % pow256(n);
        assert(w == 256 * ((v / 256) % m) + v % 256);
        assert(w % 256 == v % 256 && w / 256 == (v / 256) % m) by (nonlinear_arith)
            requires
                w == 256 * ((v / 256) % m) + v % 256,
                0 <= v % 256 < 256,
                0 <= (v / 256) % m,
        ;
        lemma_be_bytes_low(v / 256, (n - 1) as nat);
    }
}

/// Only the `n` low-order bytes of a value reach an `n`-byte little-endian
/// encoding.
pub proof fn lemma_le_bytes_low(v: nat, n: nat)
    ensures
        le_bytes(v % pow256(n), n) == le_bytes(v, n),
    decreases n,
{
    if n > 0 {
        let m = pow256((n - 1) as nat);
        lemma_pow256_pos((n - 1) as nat);
        vstd::arithmetic::div_mod::lemma_mod_breakdown(v as int, 256, m as int);
        let w = v % pow256(n);
        assert(w == 256 * ((v / 256) % m) + v % 256);
        assert(w % 256 == v % 256 && w / 256 == (v / 256) % m) by (nonlinear_arith)
            requires
                w == 256 * ((v / 256) % m) + v % 256,
                0 <= v % 256 < 256,
                0 <= (v / 256) % m,
        ;
        lemma_le_bytes_low(v / 256, (n - 1) as nat);
    }
}

/// The value of a byte sequence is bounded by the capacity of its width.
pub proof fn lemma_nat_from_be_bound(s: Seq<u8>)
    ensures
        nat_from_be(s) < pow256(s.len()),
    decreases s.len(),
{
    if s.len() == 0 {
    } else {
        lemma_nat_from_be_bound(s.drop_last());
        assert(s.drop_last().len() == s.len() - 1);
        let m = pow256((s.len() - 1) as nat);
        assert(nat_from_be(s.drop_last()) * 256 + s.last() < m * 256) by (nonlinear_arith)
            requires
                nat_from_be(s.drop_last()) < m,
                s.last() < 256,
        ;
    }
}

/// Decoding a big-endian encoding returns the encoded value: the fixed-width
/// round-trip law, for every value that fits in the width.
pub proof fn lemma_be_round_trip(v: nat, n: nat)
    requires
        v < pow256(n),
    ensures
        nat_from_be(be_bytes(v, n)) == v,
    decreases n,
{
    if n == 0 {
    } else {
        assert(v / 256 < pow256((n - 1) as nat)) by (nonlinear_arith)
            requires
                v < 256 * pow256((n - 1) as nat),
        ;
        lemma_be_round_trip(v / 256, (n - 1) as nat);
        lemma_be_bytes_len(v / 256, (n - 1) as nat);
        let s = be_bytes(v, n);
        assert(s.drop_last() == be_bytes(v / 256, (n - 1) as nat));
        assert(v / 256 * 256 + v % 256 == v);
    }
}

/// Decoding a little-endian encoding returns the encoded value.
pub proof fn lemma_le_round_trip(v: nat, n: nat)
    requires
        v < pow256(n),
    ensures
        nat_from_le(le_bytes(v, n)) == v,
    decreases n,
{
    if n == 0 {
    } else {
        assert(v / 256 < pow256((n - 1) as nat)) by (nonlinear_arith)
            requires
                v < 256 * pow256((n - 1) as nat),
        ;
        lemma_le_round_trip(v / 256, (n - 1) as nat);
        lemma_le_bytes_len(v / 256, (n - 1) as nat);
        let s = le_bytes(v, n);
        assert(s.drop_first() == le_bytes(v / 256, (n - 1) as nat));
        assert(v / 256 * 256 + v % 256 == v);
    }
}

/// The two's-complement mapping is a bijection between the signed and the
/// unsigned values of a width: the signed fixed-width round-trip law.
pub proof fn lemma_signed_round_trip(v: int, n: nat)
    requires
        n >= 1,
        -(pow256(n) / 2) <= v < pow256(n) / 2,
    ensures
        to_unsigned(v, n) < pow256(n),
        sign_extend(to_unsigned(v, n), n) == v,
{
    lemma_pow256_pos(n);
    assert(pow256(n) == 256 * pow256((n - 1) as nat));
    lemma_pow256_pos((n - 1) as nat);
    assert(pow256(n) % 2 == 0) by (nonlinear_arith)
        requires
            pow256(n) == 256 * pow256((n - 1) as nat),
    ;
}

/// The zigzag mapping is a bijection: decoding an encoded signed value
/// returns it, for the full signed range including the minimum value.
pub proof fn lemma_zigzag_round_trip(v: int)
    ensures
        unzigzag(zigzag(v)) == v,
{
}

/// The zigzag mapping reaches every unsigned value exactly once.
pub proof fn lemma_zigzag_onto(u: nat)
    ensures
        zigzag(unzigzag(u)) == u,
{
}

/// A LEB128 encoding is never empty and ends with its only byte whose
/// continuation bit is clear.
pub proof fn lemma_varint_bytes_shape(v: nat)
    ensures
        varint_bytes(v).len() >= 1,
        varint_bytes(v).last() < 128,
        forall|i: int| 0 <= i < varint_bytes(v).len() - 1 ==> varint_bytes(v)[i] >= 128,
    decreases v,
{
    if v >= 128 {
        lemma_varint_bytes_shape(v / 128);
    }
}

/// A value below `128^n` encodes in at most `n` LEB128 bytes.
pub proof fn lemma_varint_bytes_len(v: nat, n: nat)
    requires
        n >= 1,
        v < pow128(n),
    ensures
        varint_bytes(v).len() <= n,
    decreases n,
{
    if v >= 128 {
        assert(v / 128 < pow128((n - 1) as nat)) by (nonlinear_arith)
            requires
                v < 128 * pow128((n - 1) as nat),
        ;
        lemma_varint_bytes_len(v / 128, (n - 1) as nat);
    }
}

/// Parsing a LEB128 encoding placed at `pos` in a larger buffer returns the
/// encoded value and stops exactly past its last byte: the variable-length
/// round-trip law.
pub proof fn lemma_varint_round_trip(v: nat, data: Seq<u8>, pos: int, max: nat)
    requires
        0 <= pos,
        pos + varint_bytes(v).len() <= data.len(),
        data.subrange(pos, pos + varint_bytes(v).len() as int) == varint_bytes(v),
        varint_bytes(v).len() <= max,
    ensures
        parse_varint(data, pos, max) == VarParse::Done(v, pos + varint_bytes(v).len()),
    decreases v,
{
    let enc = varint_bytes(v);
    assert(data[pos] == enc[0]);
    if v < 128 {
        assert(enc.len() == 1);
        assert(data[pos] == v as u8);
    } else {
        let rest = varint_bytes(v / 128);
        assert(enc == seq![(v % 128 + 128) as u8] + rest);
        assert(data[pos] == (v % 128 + 128) as u8);
        assert(data.subrange(pos + 1, pos + 1 + rest.len() as int) == rest) by {
            assert forall|i: int| 0 <= i < rest.len() implies data.subrange(
                pos + 1,
                pos + 1 + rest.len() as int,
            )[i] == rest[i] by {
                assert(data[pos + 1 + i] == enc[1 + i]);
            }
            assert(data.subrange(pos + 1, pos + 1 + rest.len() as int) =~= rest);
        }
        lemma_varint_round_trip(v / 128, data, pos + 1, (max - 1) as nat);
        assert((data[pos] - 128) + 128 * (v / 128) == v % 128 + 128 * (v / 128));
        assert(v % 128 + 128 * (v / 128) == v);
    }
}

} // verus!
