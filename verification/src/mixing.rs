//! The splitmix64 finaliser, shared by every seed that is derived from another.

use vstd::arithmetic::div_mod::lemma_mod_multiples_vanish;
use vstd::prelude::*;

verus! {

/// The first factor of the finaliser.
pub const FIRST_FACTOR: u64 = 0xbf58_476d_1ce4_e5b9;

/// The second factor of the finaliser.
pub const SECOND_FACTOR: u64 = 0x94d0_49bb_1331_11eb;

/// The product of two numbers, as far as 64 bits hold it.
pub open spec fn product(a: u64, b: u64) -> u64 {
    a.wrapping_mul(b)
}

/// The splitmix64 finaliser.
pub open spec fn mixed(value: u64) -> u64 {
    let first = product(value ^ (value >> 30), FIRST_FACTOR);
    let second = product(first ^ (first >> 27), SECOND_FACTOR);
    second ^ (second >> 31)
}

/// The splitmix64 finaliser, which spreads neighbouring inputs across the range.
pub fn mix(value: u64) -> (result: u64)
    ensures
        result == mixed(value),
{
    let mut value: u64 = value ^ (value >> 30);
    value = value.wrapping_mul(FIRST_FACTOR);
    value = value ^ (value >> 27);
    value = value.wrapping_mul(SECOND_FACTOR);
    value ^ (value >> 31)
}

/// A factor with an inverse loses nothing in the product.
pub proof fn lemma_product_injective(a: u64, b: u64, factor: u64, inverse: u64, laps: nat)
    requires
        product(a, factor) == product(b, factor),
        factor * inverse == 1 + laps * 0x1_0000_0000_0000_0000,
    ensures
        a == b,
{
    lemma_product_undone(a, factor, inverse, laps);
    lemma_product_undone(b, factor, inverse, laps);
}

proof fn lemma_product_undone(a: u64, factor: u64, inverse: u64, laps: nat)
    requires
        factor * inverse == 1 + laps * 0x1_0000_0000_0000_0000,
    ensures
        a == (product(a, factor) * inverse) % 0x1_0000_0000_0000_0000,
{
    let lap = 0x1_0000_0000_0000_0000int;
    let full = a * factor;
    let kept = product(a, factor) as int;
    assert(kept == full % lap);
    let lost = full / lap;
    assert(full == lost * lap + kept);
    assert(full * inverse == a + (a * laps) * lap) by (nonlinear_arith)
        requires
            full == a * factor,
            factor * inverse == 1 + laps * lap,
    ;
    assert(kept * inverse == lap * (a * laps - lost * inverse) + a) by (nonlinear_arith)
        requires
            full == lost * lap + kept,
            full * inverse == a + (a * laps) * lap,
    ;
    lemma_mod_multiples_vanish(a * laps - lost * inverse, a as int, lap);
}

/// The finaliser loses nothing: different inputs stay different.
pub proof fn law_mix_injective(a: u64, b: u64)
    requires
        mixed(a) == mixed(b),
    ensures
        a == b,
{
    let first_a = product(a ^ (a >> 30), FIRST_FACTOR);
    let first_b = product(b ^ (b >> 30), FIRST_FACTOR);
    let second_a = product(first_a ^ (first_a >> 27), SECOND_FACTOR);
    let second_b = product(first_b ^ (first_b >> 27), SECOND_FACTOR);
    assert((second_a ^ (second_a >> 31)) == (second_b ^ (second_b >> 31)) ==> second_a == second_b)
        by (bit_vector);
    lemma_product_injective(
        first_a ^ (first_a >> 27),
        first_b ^ (first_b >> 27),
        SECOND_FACTOR,
        0x3196_42b2_d24d_8ec3,
        0x1cd3_36ed_a85f_1453,
    );
    assert((first_a ^ (first_a >> 27)) == (first_b ^ (first_b >> 27)) ==> first_a == first_b)
        by (bit_vector);
    lemma_product_injective(
        a ^ (a >> 30),
        b ^ (b >> 30),
        FIRST_FACTOR,
        0x96de_1b17_3f11_9089,
        0x70c3_bca7_8f27_f46c,
    );
    assert((a ^ (a >> 30)) == (b ^ (b >> 30)) ==> a == b) by (bit_vector);
}

} // verus!
