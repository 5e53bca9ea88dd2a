//! Additive and multiplicative identities.
use crate::float::{F32, F64};
use crate::ieee::{bias, frac_bits};
use crate::kind::{Kind, Value};
use crate::numeric::Numeric;
use vstd::arithmetic::power2::{lemma2_to64, lemma2_to64_rest, pow2};
use vstd::prelude::*;

verus! {

/// The additive identity of kind `k`: `0`, or the bits of `+0.0`.
pub open spec fn zero_value(k: Kind) -> Value {
    if k.is_float() {
        Value::Float(0)
    } else {
        Value::Int(0)
    }
}

/// The multiplicative identity of kind `k`: `1`, or the bits of `1.0`, whose
/// exponent field is the bias and whose fraction is zero.
pub open spec fn one_value(k: Kind) -> Value {
    if k.is_float() {
        Value::Float((bias(k) * pow2(frac_bits(k))) as nat)
    } else {
        Value::Int(1)
    }
}

/// Types that have a `zero` value.
///
/// This trait is intended for use in conjunction with `Add`, as an identity:
/// `x + T::zero() == x`.
pub trait Zero: Numeric {
    /// Returns the `zero` (usually, additive identity) for this type.
    fn zero() -> (r: Self)
        ensures
            r.value() == zero_value(Self::kind()),
    ;
}

/// Types that have a `one` value.
///
/// This trait is intended for use in conjunction with `Mul`, as an identity:
/// `x * T::one() == x`.
pub trait One: Numeric {
    /// Returns the `one` (usually, multiplicative identity) for this type.
    fn one() -> (r: Self)
        ensures
            r.value() == one_value(Self::kind()),
    ;
}

impl Zero for i8 {
    fn zero() -> (r: Self) {
        0
    }
}

impl One for i8 {
    fn one() -> (r: Self) {
        1
    }
}

impl Zero for i16 {
    fn zero() -> (r: Self) {
        0
    }
}

impl One for i16 {
    fn one() -> (r: Self) {
        1
    }
}

impl Zero for i32 {
    fn zero() -> (r: Self) {
        0
    }
}

impl One for i32 {
    fn one() -> (r: Self) {
        1
    }
}

impl Zero for i64 {
    fn zero() -> (r: Self) {
        0
    }
}

impl One for i64 {
    fn one() -> (r: Self) {
        1
    }
}

impl Zero for isize {
    fn zero() -> (r: Self) {
        0
    }
}

impl One for isize {
    fn one() -> (r: Self) {
        1
    }
}

impl Zero for u8 {
    fn zero() -> (r: Self) {
        0
    }
}

impl One for u8 {
    fn one() -> (r: Self) {
        1
    }
}

impl Zero for u16 {
    fn zero() -> (r: Self) {
        0
    }
}

impl One for u16 {
    fn one() -> (r: Self) {
        1
    }
}

impl Zero for u32 {
    fn zero() -> (r: Self) {
        0
    }
}

impl One for u32 {
    fn one() -> (r: Self) {
        1
    }
}

impl Zero for u64 {
    fn zero() -> (r: Self) {
        0
    }
}

impl One for u64 {
    fn one() -> (r: Self) {
        1
    }
}

impl Zero for usize {
    fn zero() -> (r: Self) {
        0
    }
}

impl One for usize {
    fn one() -> (r: Self) {
        1
    }
}

impl Zero for F32 {
    fn zero() -> (r: Self) {
        F32 { bits: 0 }
    }
}

impl One for F32 {
    fn one() -> (r: Self) {
        proof {
            lemma2_to64();
            lemma2_to64_rest();
        }
        F32 { bits: 0x3f80_0000 }
    }
}

impl Zero for F64 {
    fn zero() -> (r: Self) {
        F64 { bits: 0 }
    }
}

impl One for F64 {
    fn one() -> (r: Self) {
        proof {
            lemma2_to64();
            lemma2_to64_rest();
        }
        F64 { bits: 0x3ff0_0000_0000_0000 }
    }
}

} // verus!
