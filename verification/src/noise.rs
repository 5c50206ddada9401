//! Integer hashing behind the procedural noise of the bar's backgrounds.
use vstd::prelude::*;
use vstd::wrapping::u32_specs::{wrapping_add, wrapping_mul};

verus! {

/// A pair of unsigned lanes, hashed side by side.
#[derive(Clone, Copy, PartialEq, Eq, Structural, Debug)]
pub struct UVec2 {
    pub x: u32,
    pub y: u32,
}

/// Multiplier of the linear congruential steps.
pub const MULTIPLIER: u32 = 1_664_525;

/// Increment of the first linear congruential step.
pub const INCREMENT: u32 = 1_013_904_223;

/// Folds the high half of a lane into its low half.
pub open spec fn fold(value: u32) -> u32 {
    value ^ (value >> 16)
}

/// Lets each lane absorb the other: `x += y * K`, then `y += x * K`, wrapping.
pub open spec fn cross(value: UVec2) -> UVec2 {
    let x = wrapping_add(value.x, wrapping_mul(value.y, MULTIPLIER));
    UVec2 { x, y: wrapping_add(value.y, wrapping_mul(x, MULTIPLIER)) }
}

/// The 2-lane avalanche mix: a linear congruential step on both lanes, then two rounds of
/// crossing the lanes and folding each lane's high half into its low half.
pub open spec fn mixed(value: UVec2) -> UVec2 {
    let stepped = UVec2 {
        x: wrapping_add(wrapping_mul(value.x, MULTIPLIER), INCREMENT),
        y: wrapping_add(wrapping_mul(value.y, MULTIPLIER), INCREMENT),
    };
    let first = cross(stepped);
    let folded = UVec2 { x: fold(first.x), y: fold(first.y) };
    let second = cross(folded);
    UVec2 { x: fold(second.x), y: fold(second.y) }
}

/// Core 2-lane avalanche mixer for hash functions.
pub fn avalanche(value: UVec2) -> (mixed_value: UVec2)
    ensures
        mixed_value == mixed(value),
{
    let mut value = value;
    value.x = value.x.wrapping_mul(MULTIPLIER).wrapping_add(INCREMENT);
    value.y = value.y.wrapping_mul(MULTIPLIER).wrapping_add(INCREMENT);
    value.x = value.x.wrapping_add(value.y.wrapping_mul(MULTIPLIER));
    value.y = value.y.wrapping_add(value.x.wrapping_mul(MULTIPLIER));
    value.x = value.x ^ (value.x >> 16);
    value.y = value.y ^ (value.y >> 16);
    value.x = value.x.wrapping_add(value.y.wrapping_mul(MULTIPLIER));
    value.y = value.y.wrapping_add(value.x.wrapping_mul(MULTIPLIER));
    value.x = value.x ^ (value.x >> 16);
    value.y = value.y ^ (value.y >> 16);
    value
}


/// Folding twice gives the lane back.
proof fn lemma_fold_undone(value: u32)
    ensures
        fold(fold(value)) == value,
{
    assert((value ^ (value >> 16)) ^ ((value ^ (value >> 16)) >> 16) == value) by (bit_vector);
}

/// Multiplying by `MULTIPLIER` and then by 4_276_115_653, its inverse modulo 2^32, gives the
/// lane back.
proof fn lemma_scale_undone(value: u32)
    ensures
        wrapping_mul(wrapping_mul(value, MULTIPLIER), 4_276_115_653u32) == value,
{
    let m: int = 0x1_0000_0000;
    let x: int = value as int * 1_664_525;
    let q: int = x / m;
    let p: int = x % m;
    vstd::arithmetic::div_mod::lemma_fundamental_div_mod(x, m);
    assert(p * 4_276_115_653 == value as int + m * (value as int * 1_657_219 - q * 4_276_115_653))
        by (nonlinear_arith)
        requires
            x == m * q + p,
            x == value as int * 1_664_525,
            m == 0x1_0000_0000,
    ;
    vstd::arithmetic::div_mod::lemma_mod_multiples_vanish(
        value as int * 1_657_219 - q * 4_276_115_653,
        value as int,
        m,
    );
    vstd::arithmetic::div_mod::lemma_small_mod(value as nat, m as nat);
}

/// Crossing the lanes loses nothing.
proof fn lemma_cross_injective(a: UVec2, b: UVec2)
    requires
        cross(a) == cross(b),
    ensures
        a == b,
{
    let xa = wrapping_add(a.x, wrapping_mul(a.y, MULTIPLIER));
    let xb = wrapping_add(b.x, wrapping_mul(b.y, MULTIPLIER));
    assert(xa == xb);
    assert(a.y == b.y);
    assert(a.x == b.x);
}

/// The avalanche mix loses nothing: two different pairs never mix to the same pair, so the
/// mix permutes the pairs of 32-bit lanes.
pub proof fn lemma_mixed_injective(a: UVec2, b: UVec2)
    requires
        mixed(a) == mixed(b),
    ensures
        a == b,
{
    let stepped_a = UVec2 {
        x: wrapping_add(wrapping_mul(a.x, MULTIPLIER), INCREMENT),
        y: wrapping_add(wrapping_mul(a.y, MULTIPLIER), INCREMENT),
    };
    let stepped_b = UVec2 {
        x: wrapping_add(wrapping_mul(b.x, MULTIPLIER), INCREMENT),
        y: wrapping_add(wrapping_mul(b.y, MULTIPLIER), INCREMENT),
    };
    let first_a = cross(stepped_a);
    let first_b = cross(stepped_b);
    let folded_a = UVec2 { x: fold(first_a.x), y: fold(first_a.y) };
    let folded_b = UVec2 { x: fold(first_b.x), y: fold(first_b.y) };
    let second_a = cross(folded_a);
    let second_b = cross(folded_b);
    lemma_fold_undone(second_a.x);
    lemma_fold_undone(second_a.y);
    lemma_fold_undone(second_b.x);
    lemma_fold_undone(second_b.y);
    assert(second_a == second_b);
    lemma_cross_injective(folded_a, folded_b);
    lemma_fold_undone(first_a.x);
    lemma_fold_undone(first_a.y);
    lemma_fold_undone(first_b.x);
    lemma_fold_undone(first_b.y);
    assert(first_a == first_b);
    lemma_cross_injective(stepped_a, stepped_b);
    assert(wrapping_mul(a.x, MULTIPLIER) == wrapping_mul(b.x, MULTIPLIER));
    assert(wrapping_mul(a.y, MULTIPLIER) == wrapping_mul(b.y, MULTIPLIER));
    lemma_scale_undone(a.x);
    lemma_scale_undone(b.x);
    lemma_scale_undone(a.y);
    lemma_scale_undone(b.y);
}

} // verus!
