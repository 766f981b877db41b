use vstd::prelude::*;
use rustc_apfloat::Float as IeeeOps;
use rustc_apfloat::ieee::Single;

verus! {

// Single-precision values travel through the interpreter as their IEEE 754
// bit patterns; the arithmetic itself is done by outside soft-float code, and
// each operation's result is named by an uninterpreted function of the bits.

pub uninterp spec fn float_add(a: u32, b: u32) -> u32;

pub uninterp spec fn float_sub(a: u32, b: u32) -> u32;

pub uninterp spec fn float_mul(a: u32, b: u32) -> u32;

pub uninterp spec fn float_div(a: u32, b: u32) -> u32;

pub uninterp spec fn float_rem(a: u32, b: u32) -> u32;

pub uninterp spec fn float_pow(a: u32, b: u32) -> u32;

pub uninterp spec fn float_eq(a: u32, b: u32) -> bool;

pub uninterp spec fn float_lt(a: u32, b: u32) -> bool;

pub uninterp spec fn float_le(a: u32, b: u32) -> bool;

/// Relies on rustc_apfloat's ieee::Single addition (round to nearest even),
/// a pure function of the two bit patterns.
#[verifier::external_body]
pub fn float_add_bits(a: u32, b: u32) -> (r: u32)
    ensures
        r == float_add(a, b),
{
    (Single::from_bits(a as u128) + Single::from_bits(b as u128)).value.to_bits() as u32
}

/// Relies on rustc_apfloat's ieee::Single subtraction.
#[verifier::external_body]
pub fn float_sub_bits(a: u32, b: u32) -> (r: u32)
    ensures
        r == float_sub(a, b),
{
    (Single::from_bits(a as u128) - Single::from_bits(b as u128)).value.to_bits() as u32
}

/// Relies on rustc_apfloat's ieee::Single multiplication.
#[verifier::external_body]
pub fn float_mul_bits(a: u32, b: u32) -> (r: u32)
    ensures
        r == float_mul(a, b),
{
    (Single::from_bits(a as u128) * Single::from_bits(b as u128)).value.to_bits() as u32
}

/// Relies on rustc_apfloat's ieee::Single division.
#[verifier::external_body]
pub fn float_div_bits(a: u32, b: u32) -> (r: u32)
    ensures
        r == float_div(a, b),
{
    (Single::from_bits(a as u128) / Single::from_bits(b as u128)).value.to_bits() as u32
}

/// Relies on rustc_apfloat's ieee::Single remainder (c_fmod semantics).
#[verifier::external_body]
pub fn float_rem_bits(a: u32, b: u32) -> (r: u32)
    ensures
        r == float_rem(a, b),
{
    (Single::from_bits(a as u128) % Single::from_bits(b as u128)).value.to_bits() as u32
}

/// Relies on libm::powf, with bytemuck::cast converting the bit patterns.
#[verifier::external_body]
pub fn float_pow_bits(a: u32, b: u32) -> (r: u32)
    ensures
        r == float_pow(a, b),
{
    let p: u32 = bytemuck::cast(libm::powf(bytemuck::cast(a), bytemuck::cast(b)));
    p
}

/// Relies on rustc_apfloat's ieee::Single IEEE equality (zeros of either sign
/// are equal; a NaN compares unequal to everything).
#[verifier::external_body]
pub fn float_eq_bits(a: u32, b: u32) -> (r: bool)
    ensures
        r == float_eq(a, b),
{
    Single::from_bits(a as u128) == Single::from_bits(b as u128)
}

/// Relies on rustc_apfloat's ieee::Single IEEE ordering (false on NaN).
#[verifier::external_body]
pub fn float_lt_bits(a: u32, b: u32) -> (r: bool)
    ensures
        r == float_lt(a, b),
{
    Single::from_bits(a as u128) < Single::from_bits(b as u128)
}

/// Relies on rustc_apfloat's ieee::Single IEEE ordering (false on NaN).
#[verifier::external_body]
pub fn float_le_bits(a: u32, b: u32) -> (r: bool)
    ensures
        r == float_le(a, b),
{
    Single::from_bits(a as u128) <= Single::from_bits(b as u128)
}

} // verus!
