//! IEEE-754 binary32 values held as their bit patterns.
use vstd::prelude::*;

verus! {

/// Bit pattern of the sign bit.
pub const SIGN_BIT: u32 = 0x8000_0000;

/// Magnitude bits of positive infinity.
pub const INFINITY_BITS: u32 = 0x7f80_0000;

/// Whether the sign bit of `b` is set.
pub open spec fn is_negative_bits(b: u32) -> bool {
    b >= SIGN_BIT
}

/// The bits of `b` with the sign bit cleared.
pub open spec fn magnitude(b: u32) -> int {
    if is_negative_bits(b) {
        b - SIGN_BIT
    } else {
        b as int
    }
}

/// `b` encodes a NaN: all exponent bits set and a non-zero mantissa.
pub open spec fn is_nan_bits(b: u32) -> bool {
    magnitude(b) > INFINITY_BITS
}

/// `b` encodes positive or negative infinity.
pub open spec fn is_infinite_bits(b: u32) -> bool {
    magnitude(b) == INFINITY_BITS
}

/// An integer that orders the non-NaN floats as the reals do; `+0` and `-0`
/// both map to `0`.
pub open spec fn real_key(b: u32) -> int {
    if is_negative_bits(b) {
        -magnitude(b)
    } else {
        magnitude(b)
    }
}

/// The float `a` is strictly less than the float `b` (false when either is NaN).
pub open spec fn float_lt(a: u32, b: u32) -> bool {
    !is_nan_bits(a) && !is_nan_bits(b) && real_key(a) < real_key(b)
}

/// The float `a` is less than or equal to the float `b` (false when either is NaN).
pub open spec fn float_le(a: u32, b: u32) -> bool {
    !is_nan_bits(a) && !is_nan_bits(b) && real_key(a) <= real_key(b)
}

/// The rank used to order fitness values: the real order, with NaN below
/// every number.
pub open spec fn fitness_rank(b: u32) -> int {
    if is_nan_bits(b) {
        -(SIGN_BIT as int)
    } else {
        real_key(b)
    }
}

/// The four bytes of `g`, most significant first.
pub open spec fn be_bytes(g: u32) -> Seq<u8> {
    seq![
        ((g >> 24u32) & 0xffu32) as u8,
        ((g >> 16u32) & 0xffu32) as u8,
        ((g >> 8u32) & 0xffu32) as u8,
        (g & 0xffu32) as u8,
    ]
}

/// `a` and `b` differ in exactly one of their 32 bits.
pub open spec fn differ_in_one_bit(a: u32, b: u32) -> bool {
    exists|k: u32| k < 32 && #[trigger] (a ^ b) == (1u32 << k)
}

fn magnitude_of(b: u32) -> (r: u32)
    ensures
        r == magnitude(b),
{
    if b >= SIGN_BIT {
        b - SIGN_BIT
    } else {
        b
    }
}

/// Whether `b` encodes a NaN.
pub fn is_nan(b: u32) -> (r: bool)
    ensures
        r == is_nan_bits(b),
{
    magnitude_of(b) > INFINITY_BITS
}

/// Whether `b` encodes an infinity.
pub fn is_infinite(b: u32) -> (r: bool)
    ensures
        r == is_infinite_bits(b),
{
    magnitude_of(b) == INFINITY_BITS
}

fn real_key_of(b: u32) -> (r: i64)
    ensures
        r == real_key(b),
{
    let m = magnitude_of(b) as i64;
    if b >= SIGN_BIT {
        -m
    } else {
        m
    }
}

/// The float comparison `a < b`.
pub fn less_than(a: u32, b: u32) -> (r: bool)
    ensures
        r == float_lt(a, b),
{
    !is_nan(a) && !is_nan(b) && real_key_of(a) < real_key_of(b)
}

/// The float comparison `a <= b`.
pub fn less_or_equal(a: u32, b: u32) -> (r: bool)
    ensures
        r == float_le(a, b),
{
    !is_nan(a) && !is_nan(b) && real_key_of(a) <= real_key_of(b)
}

/// The rank of the fitness value `b`, as `fitness_rank` defines it.
pub fn fitness_rank_of(b: u32) -> (r: i64)
    ensures
        r == fitness_rank(b),
{
    if is_nan(b) {
        -(SIGN_BIT as i64)
    } else {
        real_key_of(b)
    }
}

/// Single-point crossover at the middle byte boundary: the two upper bytes of
/// `a` followed by the two lower bytes of `b`.
pub fn splice(a: u32, b: u32) -> (r: u32)
    ensures
        r == (a & 0xffff_0000u32) | (b & 0x0000_ffffu32),
        be_bytes(r) == seq![be_bytes(a)[0], be_bytes(a)[1], be_bytes(b)[2], be_bytes(b)[3]],
{
    let r = (a & 0xffff_0000u32) | (b & 0x0000_ffffu32);
    assert(((r >> 24u32) & 0xffu32) == ((a >> 24u32) & 0xffu32)) by (bit_vector)
        requires
            r == (a & 0xffff_0000u32) | (b & 0x0000_ffffu32),
    ;
    assert(((r >> 16u32) & 0xffu32) == ((a >> 16u32) & 0xffu32)) by (bit_vector)
        requires
            r == (a & 0xffff_0000u32) | (b & 0x0000_ffffu32),
    ;
    assert(((r >> 8u32) & 0xffu32) == ((b >> 8u32) & 0xffu32)) by (bit_vector)
        requires
            r == (a & 0xffff_0000u32) | (b & 0x0000_ffffu32),
    ;
    assert((r & 0xffu32) == (b & 0xffu32)) by (bit_vector)
        requires
            r == (a & 0xffff_0000u32) | (b & 0x0000_ffffu32),
    ;
    assert(be_bytes(r) =~= seq![be_bytes(a)[0], be_bytes(a)[1], be_bytes(b)[2], be_bytes(b)[3]]);
    r
}

/// `g` with bit `k` flipped.
pub fn flip_bit(g: u32, k: u32) -> (r: u32)
    requires
        k < 32,
    ensures
        r == g ^ (1u32 << k),
        differ_in_one_bit(g, r),
{
    let r = g ^ (1u32 << k);
    assert((g ^ r) == (1u32 << k)) by (bit_vector)
        requires
            r == g ^ (1u32 << k),
    ;
    r
}

} // verus!
