//! Single-precision values carried by their bit patterns.
//!
//! The rules never compute with such values: they carry them, ask whether they
//! are finite, and compare them. Each of those is a question about the 32 bits
//! of the IEEE 754 binary32 format.

use vstd::arithmetic::power2::{lemma_pow2_pos, lemma_pow2_strictly_increases, pow2};
use vstd::prelude::*;

verus! {

/// Positive zero.
pub const ZERO: u32 = 0;

/// One.
pub const ONE: u32 = 0x3f80_0000;

/// Minus one.
pub const MINUS_ONE: u32 = 0xbf80_0000;

/// Two values, by their bit patterns.
#[derive(Clone, Copy, Debug, PartialEq, Eq, Structural)]
pub struct Vec2 {
    pub x: u32,
    pub y: u32,
}

/// The eight exponent bits.
pub open spec fn exponent(bits: u32) -> int {
    (bits as int / 0x80_0000) % 256
}

/// The twenty-three fraction bits.
pub open spec fn fraction(bits: u32) -> int {
    bits as int % 0x80_0000
}

/// Neither infinite nor NaN.
pub open spec fn finite(bits: u32) -> bool {
    exponent(bits) != 255
}

/// Not a number.
pub open spec fn nan(bits: u32) -> bool {
    exponent(bits) == 255 && fraction(bits) != 0
}

/// The size of a value in units of the smallest positive value.
///
/// An infinity is larger than every finite value.
pub open spec fn magnitude(bits: u32) -> int {
    if exponent(bits) == 0 {
        fraction(bits)
    } else {
        (0x80_0000 + fraction(bits)) * pow2((exponent(bits) - 1) as nat)
    }
}

/// The value itself in units of the smallest positive value.
pub open spec fn scaled(bits: u32) -> int {
    if bits < 0x8000_0000 {
        magnitude(bits)
    } else {
        -magnitude((bits - 0x8000_0000) as u32)
    }
}

/// The bits as a signed number: the order of the values, with the two zeros at
/// one place.
spec fn key(bits: u32) -> int {
    if bits < 0x8000_0000 {
        bits as int
    } else {
        0x8000_0000 - bits as int
    }
}

/// Larger bits are a larger value, among the patterns without a sign.
pub proof fn lemma_magnitude_increases(low: u32, high: u32)
    requires
        low < high < 0x8000_0000,
    ensures
        0 <= magnitude(low) < magnitude(high),
{
    let (e, f) = (exponent(low), fraction(low));
    let (g, h) = (exponent(high), fraction(high));
    assert(low == e * 0x80_0000 + f);
    assert(high == g * 0x80_0000 + h);
    if e > 0 {
        lemma_pow2_pos((e - 1) as nat);
    }
    if g > 0 {
        lemma_pow2_pos((g - 1) as nat);
    }
    if e == g {
        if e > 0 {
            let unit = pow2((e - 1) as nat) as int;
            assert(0 <= (0x80_0000 + f) * unit < (0x80_0000 + h) * unit) by (nonlinear_arith)
                requires
                    0 <= f < h,
                    unit > 0,
            ;
        }
    } else {
        assert(e < g);
        let unit = pow2((g - 1) as nat) as int;
        assert(magnitude(high) >= 0x80_0000 * unit) by (nonlinear_arith)
            requires
                magnitude(high) == (0x80_0000 + h) * unit,
                h >= 0,
                unit > 0,
        ;
        if e == 0 {
            assert(0x80_0000 * unit >= 0x80_0000) by (nonlinear_arith)
                requires
                    unit > 0,
            ;
        } else {
            let small = pow2((e - 1) as nat) as int;
            vstd::arithmetic::power2::lemma_pow2_unfold(e as nat);
            if e < g - 1 {
                lemma_pow2_strictly_increases(e as nat, (g - 1) as nat);
            }
            assert(2 * small <= unit);
            assert(0 <= (0x80_0000 + f) * small < 0x80_0000 * unit) by (nonlinear_arith)
                requires
                    0 <= f < 0x80_0000,
                    small > 0,
                    2 * small <= unit,
            ;
        }
    }
}

/// The order of the signed bits is the order of the values.
proof fn lemma_key_orders(a: u32, b: u32)
    ensures
        key(a) < key(b) <==> scaled(a) < scaled(b),
        key(a) == key(b) <==> scaled(a) == scaled(b),
{
    let p = if a < 0x8000_0000 { a } else { (a - 0x8000_0000) as u32 };
    let q = if b < 0x8000_0000 { b } else { (b - 0x8000_0000) as u32 };
    if p < q {
        lemma_magnitude_increases(p, q);
    } else if q < p {
        lemma_magnitude_increases(q, p);
    }
    if p > 0 {
        lemma_magnitude_increases(0, p);
    }
    if q > 0 {
        lemma_magnitude_increases(0, q);
    }
    assert(magnitude(0) == 0);
}

/// Whether a value is neither infinite nor NaN.
pub fn is_finite(bits: u32) -> (result: bool)
    ensures
        result == finite(bits),
{
    (bits / 0x80_0000) % 256 != 255
}

/// Whether a value is not a number.
pub fn is_nan(bits: u32) -> (result: bool)
    ensures
        result == nan(bits),
{
    (bits / 0x80_0000) % 256 == 255 && bits % 0x80_0000 != 0
}

fn order_key(bits: u32) -> (result: i64)
    ensures
        result == key(bits),
{
    if bits < 0x8000_0000 {
        bits as i64
    } else {
        0x8000_0000 - bits as i64
    }
}

/// Whether the first value is below the second; never so of a NaN.
pub fn less(a: u32, b: u32) -> (result: bool)
    ensures
        result == (!nan(a) && !nan(b) && scaled(a) < scaled(b)),
{
    proof {
        lemma_key_orders(a, b);
    }
    !is_nan(a) && !is_nan(b) && order_key(a) < order_key(b)
}

/// Whether the first value is at most the second; never so of a NaN.
pub fn at_most(a: u32, b: u32) -> (result: bool)
    ensures
        result == (!nan(a) && !nan(b) && scaled(a) <= scaled(b)),
{
    proof {
        lemma_key_orders(a, b);
    }
    !is_nan(a) && !is_nan(b) && order_key(a) <= order_key(b)
}

/// The same value without its sign.
pub open spec fn unsigned(bits: u32) -> u32 {
    if bits < 0x8000_0000 {
        bits
    } else {
        (bits - 0x8000_0000) as u32
    }
}

/// The same value with the other sign.
pub open spec fn negated(bits: u32) -> u32 {
    if bits < 0x8000_0000 {
        (bits + 0x8000_0000) as u32
    } else {
        (bits - 0x8000_0000) as u32
    }
}

/// The same value without its sign.
pub fn abs(bits: u32) -> (result: u32)
    ensures
        result == unsigned(bits),
{
    if bits < 0x8000_0000 {
        bits
    } else {
        bits - 0x8000_0000
    }
}

/// The same value with the other sign.
pub fn negate(bits: u32) -> (result: u32)
    ensures
        result == negated(bits),
{
    if bits < 0x8000_0000 {
        bits + 0x8000_0000
    } else {
        bits - 0x8000_0000
    }
}

/// Dropping the sign and turning it do to the value what they say, and a number
/// stays a number.
pub proof fn law_signs(bits: u32)
    ensures
        scaled(unsigned(bits)) == if scaled(bits) < 0 {
            -scaled(bits)
        } else {
            scaled(bits)
        },
        scaled(negated(bits)) == -scaled(bits),
        negated(negated(bits)) == bits,
        nan(unsigned(bits)) == nan(bits),
        nan(negated(bits)) == nan(bits),
        finite(unsigned(bits)) == finite(bits),
        finite(negated(bits)) == finite(bits),
{
    let plain = unsigned(bits);
    assert(magnitude(plain) >= 0) by {
        if plain > 0 {
            lemma_magnitude_increases(0, plain);
        }
    }
    if bits >= 0x8000_0000 {
        assert(bits == plain + 256 * 0x80_0000);
        assert(exponent(bits) == exponent(plain));
        assert(fraction(bits) == fraction(plain));
    } else {
        let turned = negated(bits);
        assert(turned == plain + 256 * 0x80_0000);
        assert(exponent(turned) == exponent(plain));
        assert(fraction(turned) == fraction(plain));
    }
}

/// The value, or the nearer end of a range it is outside of.
pub open spec fn clamped(bits: u32, low: u32, high: u32) -> u32 {
    if !nan(bits) && scaled(bits) < scaled(low) {
        low
    } else if !nan(bits) && scaled(bits) > scaled(high) {
        high
    } else {
        bits
    }
}

/// The value, or the nearer end of a range it is outside of.
pub fn clamp(bits: u32, low: u32, high: u32) -> (result: u32)
    requires
        !nan(low),
        !nan(high),
    ensures
        result == clamped(bits, low, high),
{
    if less(bits, low) {
        low
    } else if less(high, bits) {
        high
    } else {
        bits
    }
}

/// Clamping between two ends leaves no number outside of them.
pub proof fn law_clamped_stays_between(bits: u32, low: u32, high: u32)
    requires
        !nan(bits),
        !nan(low),
        !nan(high),
        scaled(low) <= scaled(high),
    ensures
        !nan(clamped(bits, low, high)),
        scaled(low) <= scaled(clamped(bits, low, high)) <= scaled(high),
{
}

/// The value, or the limit where it is above that, or no number.
pub open spec fn capped(bits: u32, limit: u32) -> u32 {
    if nan(bits) || scaled(bits) > scaled(limit) {
        limit
    } else {
        bits
    }
}

/// The value, or the limit where it is above that, or no number.
pub fn cap(bits: u32, limit: u32) -> (result: u32)
    requires
        !nan(limit),
    ensures
        result == capped(bits, limit),
{
    if at_most(bits, limit) {
        bits
    } else {
        limit
    }
}

/// The value, or the floor where it is below that, or no number.
pub open spec fn raised(bits: u32, floor: u32) -> u32 {
    if nan(bits) || scaled(bits) < scaled(floor) {
        floor
    } else {
        bits
    }
}

/// The value, or the floor where it is below that, or no number.
pub fn raise(bits: u32, floor: u32) -> (result: u32)
    requires
        !nan(floor),
    ensures
        result == raised(bits, floor),
{
    if at_most(floor, bits) {
        bits
    } else {
        floor
    }
}

/// The place of a value in the total order of all bit patterns, NaNs and the
/// two zeros included.
pub open spec fn total_rank(bits: u32) -> int {
    if bits < 0x8000_0000 {
        bits as int
    } else {
        0x7fff_ffff - bits as int
    }
}

/// The place of a value in the total order of all bit patterns.
pub fn total_order(bits: u32) -> (result: i64)
    ensures
        result == total_rank(bits),
{
    if bits < 0x8000_0000 {
        bits as i64
    } else {
        0x7fff_ffff - bits as i64
    }
}

/// The total order tells every two patterns apart, and where both are numbers
/// it never contradicts their values.
pub proof fn law_total_order(a: u32, b: u32)
    ensures
        total_rank(a) == total_rank(b) <==> a == b,
        scaled(a) < scaled(b) ==> total_rank(a) < total_rank(b),
{
    lemma_key_orders(a, b);
}

impl Vec2 {
    /// Both values finite.
    pub open spec fn finite(self) -> bool {
        finite(self.x) && finite(self.y)
    }

    /// Whether both values are finite.
    pub fn is_finite(self) -> (result: bool)
        ensures
            result == self.finite(),
    {
        is_finite(self.x) && is_finite(self.y)
    }
}

/// A number inside a range is not changed by clamping it to that range, one
/// below becomes its low end and one above its high end; and what is no number
/// stays what it is.
pub proof fn law_clamping_moves_only_what_is_outside(bits: u32, low: u32, high: u32)
    requires
        !nan(low),
        !nan(high),
        scaled(low) <= scaled(high),
    ensures
        !nan(bits) && scaled(low) <= scaled(bits) <= scaled(high) ==> clamped(bits, low, high)
            == bits,
        !nan(bits) && scaled(bits) < scaled(low) ==> clamped(bits, low, high) == low,
        !nan(bits) && scaled(bits) > scaled(high) ==> clamped(bits, low, high) == high,
        nan(bits) ==> clamped(bits, low, high) == bits,
{
}

/// A capped value is the smaller of the two and a raised one the larger; what is
/// no number gives way to what is.
pub proof fn law_caps_and_floors(bits: u32, end: u32)
    requires
        !nan(end),
    ensures
        capped(bits, end) == bits || capped(bits, end) == end,
        raised(bits, end) == bits || raised(bits, end) == end,
        !nan(bits) ==> scaled(capped(bits, end)) <= scaled(bits) <= scaled(raised(bits, end)),
        scaled(capped(bits, end)) <= scaled(end) <= scaled(raised(bits, end)),
        nan(bits) ==> capped(bits, end) == end && raised(bits, end) == end,
        !nan(capped(bits, end)) && !nan(raised(bits, end)),
        !nan(bits) && scaled(bits) == scaled(end) ==> capped(bits, end) == bits && raised(bits, end)
            == bits,
{
}

/// The patterns without a sign are in the order of their values: the finite ones
/// first, then infinity, then those that are no number. A sign changes neither
/// what is finite nor what is a number.
pub proof fn law_patterns_are_sorted(bits: u32)
    ensures
        finite(bits) <==> bits as int % 0x8000_0000 < 0x7f80_0000,
        nan(bits) <==> bits as int % 0x8000_0000 > 0x7f80_0000,
        finite(bits) ==> !nan(bits),
{
    let plain = bits as int % 0x8000_0000;
    assert(bits as int == plain || bits as int == plain + 256 * 0x80_0000);
    assert(exponent(bits) == plain / 0x80_0000);
    assert(fraction(bits) == plain % 0x80_0000);
}

/// The least values count up one by one from zero; from there on, one more in the
/// exponent is twice the value; and the sign turns it round. So every finite
/// pattern has one value.
pub proof fn law_values_count_and_double(bits: u32)
    ensures
        bits < 0x100_0000 ==> scaled(bits) == bits,
        0x80_0000 <= bits < 0x7f00_0000 ==> scaled((bits + 0x80_0000) as u32) == 2 * scaled(bits),
        bits < 0x8000_0000 ==> scaled((bits + 0x8000_0000) as u32) == -scaled(bits),
        bits < 0x7fff_ffff ==> scaled(bits) < scaled((bits + 1) as u32),
{
    vstd::arithmetic::power2::lemma2_to64();
    if 0x80_0000 <= bits < 0x100_0000 {
        assert(exponent(bits) == 1 && fraction(bits) == bits - 0x80_0000);
        assert(pow2(0) == 1);
        assert(magnitude(bits) == (0x80_0000 + fraction(bits)) * 1);
    }
    if bits < 0x7fff_ffff {
        lemma_magnitude_increases(bits, (bits + 1) as u32);
    }
    if 0x80_0000 <= bits < 0x7f00_0000 {
        let next = (bits + 0x80_0000) as u32;
        let e = exponent(bits);
        assert(exponent(next) == e + 1);
        assert(fraction(next) == fraction(bits));
        vstd::arithmetic::power2::lemma_pow2_unfold(e as nat);
        let (unit, whole) = (pow2((e - 1) as nat) as int, 0x80_0000 + fraction(bits));
        assert(whole * (2 * unit) == 2 * (whole * unit)) by (nonlinear_arith);
    }
}

/// The total order runs from the greatest negative pattern up through both zeros
/// to the greatest positive one.
pub proof fn law_total_order_of_signs(a: u32, b: u32)
    ensures
        a < b < 0x8000_0000 ==> total_rank(a) < total_rank(b),
        0x8000_0000 <= a < b ==> total_rank(b) < total_rank(a),
        a < 0x8000_0000 <= b ==> total_rank(b) < total_rank(a),
{
}

/// A vector is finite exactly when neither of its values is infinite or no
/// number.
pub proof fn law_vectors_are_finite_in_both_values(x: u32, y: u32)
    ensures
        finite(x) && finite(y) ==> (Vec2 { x, y }).finite(),
        !finite(x) ==> !(Vec2 { x, y }).finite(),
        !finite(y) ==> !(Vec2 { x, y }).finite(),
{
}

} // verus!
