//! The two binary floating-point types, held as their IEEE-754 bit patterns.
use crate::ieee::{
    decode_bits, exp_all_ones, exp_field, frac_bits, frac_field, inf_bits, is_neg_bits, sign_bit,
};
use crate::kind::{Kind, Raw, Value};
use crate::numeric::Numeric;
use crate::signed::Signed;
use vstd::arithmetic::power2::{lemma2_to64, lemma2_to64_rest, pow2};
use vstd::prelude::*;

verus! {

/// A binary32 floating-point number, held as its bit pattern.
#[derive(Clone, Copy, Debug, PartialEq, Eq, Structural)]
pub struct F32 {
    pub bits: u32,
}

impl F32 {
    pub fn from_bits(bits: u32) -> (r: F32)
        ensures
            r.bits == bits,
    {
        F32 { bits }
    }

    pub fn to_bits(self) -> (r: u32)
        ensures
            r == self.bits,
    {
        self.bits
    }
}

impl Numeric for F32 {
    open spec fn kind() -> Kind {
        Kind::F32
    }

    open spec fn value(self) -> Value {
        Value::Float(self.bits as nat)
    }

    fn numeric_kind() -> (k: Kind) {
        Kind::F32
    }

    fn to_raw(self) -> (r: Raw) {
        Raw::Float(self.bits as u64)
    }

    fn from_raw(r: Raw) -> (x: Self) {
        proof {
            lemma2_to64();
        }
        match r {
            Raw::Float(b) => F32 { bits: b as u32 },
            Raw::Int(_) => F32 { bits: 0 },
        }
    }

    proof fn lemma_value_holds(self) {
        lemma2_to64();
    }

    proof fn lemma_value_injective(self, other: Self) {
    }
}

/// A binary64 floating-point number, held as its bit pattern.
#[derive(Clone, Copy, Debug, PartialEq, Eq, Structural)]
pub struct F64 {
    pub bits: u64,
}

impl F64 {
    pub fn from_bits(bits: u64) -> (r: F64)
        ensures
            r.bits == bits,
    {
        F64 { bits }
    }

    pub fn to_bits(self) -> (r: u64)
        ensures
            r == self.bits,
    {
        self.bits
    }
}

impl Numeric for F64 {
    open spec fn kind() -> Kind {
        Kind::F64
    }

    open spec fn value(self) -> Value {
        Value::Float(self.bits as nat)
    }

    fn numeric_kind() -> (k: Kind) {
        Kind::F64
    }

    fn to_raw(self) -> (r: Raw) {
        Raw::Float(self.bits as u64)
    }

    fn from_raw(r: Raw) -> (x: Self) {
        proof {
            lemma2_to64();
        }
        match r {
            Raw::Float(b) => F64 { bits: b as u64 },
            Raw::Int(_) => F64 { bits: 0 },
        }
    }

    proof fn lemma_value_holds(self) {
        lemma2_to64();
    }

    proof fn lemma_value_injective(self, other: Self) {
    }
}

/// The bit pattern held by a float value.
pub open spec fn bits_of(v: Value) -> nat {
    match v {
        Value::Float(b) => b,
        Value::Int(_) => 0,
    }
}

/// The classes of floating-point numbers.
#[derive(Clone, Copy, Debug, PartialEq, Eq, Structural)]
pub enum FpCategory {
    Nan,
    Infinite,
    Zero,
    Subnormal,
    Normal,
}

/// The class of the float with bits `b` of kind `k`.
pub open spec fn category(k: Kind, b: nat) -> FpCategory {
    if exp_field(k, b) == exp_all_ones(k) {
        if frac_field(k, b) == 0 {
            FpCategory::Infinite
        } else {
            FpCategory::Nan
        }
    } else if exp_field(k, b) == 0 {
        if frac_field(k, b) == 0 {
            FpCategory::Zero
        } else {
            FpCategory::Subnormal
        }
    } else {
        FpCategory::Normal
    }
}

/// The quiet NaN with a clear sign and an empty payload.
pub open spec fn nan_value(k: Kind) -> nat {
    inf_bits(k, false) + pow2((frac_bits(k) - 1) as nat)
}

/// Float numbers.
pub trait Float: Signed {
    /// Returns the `NaN` value.
    fn nan() -> (r: Self)
        ensures
            bits_of(r.value()) == nan_value(Self::kind()),
    ;

    /// Returns the infinite value.
    fn infinity() -> (r: Self)
        ensures
            bits_of(r.value()) == inf_bits(Self::kind(), false),
    ;

    /// Returns the negative infinite value.
    fn neg_infinity() -> (r: Self)
        ensures
            bits_of(r.value()) == inf_bits(Self::kind(), true),
    ;

    /// Returns `-0.0`.
    fn neg_zero() -> (r: Self)
        ensures
            bits_of(r.value()) == sign_bit(Self::kind()),
    ;

    /// Returns the smallest positive, normalized value that this type can represent.
    fn min_positive_value() -> (r: Self)
        ensures
            bits_of(r.value()) == pow2(frac_bits(Self::kind())),
    ;

    /// Returns the floating point category of the number.
    fn classify(self) -> (r: FpCategory)
        ensures
            r == category(Self::kind(), bits_of(self.value())),
    ;

    /// Returns `true` if this value is `NaN` and false otherwise.
    fn is_nan(self) -> (r: bool)
        ensures
            r == (category(Self::kind(), bits_of(self.value())) == FpCategory::Nan),
    ;

    /// Returns `true` if this value is positive infinity or negative infinity and false otherwise.
    fn is_infinite(self) -> (r: bool)
        ensures
            r == (category(Self::kind(), bits_of(self.value())) == FpCategory::Infinite),
    ;

    /// Returns `true` if this number is neither infinite nor `NaN`.
    fn is_finite(self) -> (r: bool)
        ensures
            r == (exp_field(Self::kind(), bits_of(self.value())) != exp_all_ones(Self::kind())),
    ;

    /// Returns `true` if the number is neither zero, infinite, subnormal, or `NaN`.
    fn is_normal(self) -> (r: bool)
        ensures
            r == (category(Self::kind(), bits_of(self.value())) == FpCategory::Normal),
    ;

    /// Returns `true` if the sign bit is clear, as for `+0.0` and `infinity()`.
    fn is_sign_positive(self) -> (r: bool)
        ensures
            r == !is_neg_bits(Self::kind(), bits_of(self.value())),
    ;

    /// Returns `true` if the sign bit is set, as for `-0.0` and `neg_infinity()`.
    fn is_sign_negative(self) -> (r: bool)
        ensures
            r == is_neg_bits(Self::kind(), bits_of(self.value())),
    ;
}

/// The class of the float with bits `b` of kind `k`.
fn classify_bits(k: Kind, b: u64) -> (r: FpCategory)
    requires
        k.is_float(),
        b < pow2(k.bits()),
    ensures
        r == category(k, b as nat),
{
    let (_neg, exp, frac) = decode_bits(k, b);
    let ones: u64 = match k {
        Kind::F32 => 255,
        _ => 2047,
    };
    if exp == ones {
        if frac == 0 {
            FpCategory::Infinite
        } else {
            FpCategory::Nan
        }
    } else if exp == 0 {
        if frac == 0 {
            FpCategory::Zero
        } else {
            FpCategory::Subnormal
        }
    } else {
        FpCategory::Normal
    }
}

impl Float for F32 {
    fn nan() -> (r: Self) {
        proof {
            lemma2_to64();
            lemma2_to64_rest();
        }
        F32 { bits: 0x7fc0_0000 }
    }

    fn infinity() -> (r: Self) {
        proof {
            lemma2_to64();
            lemma2_to64_rest();
        }
        F32 { bits: 0x7f80_0000 }
    }

    fn neg_infinity() -> (r: Self) {
        proof {
            lemma2_to64();
            lemma2_to64_rest();
        }
        F32 { bits: 0x8000_0000 + 0x7f80_0000 }
    }

    fn neg_zero() -> (r: Self) {
        proof {
            lemma2_to64();
            lemma2_to64_rest();
        }
        F32 { bits: 0x8000_0000 }
    }

    fn min_positive_value() -> (r: Self) {
        proof {
            lemma2_to64();
            lemma2_to64_rest();
        }
        F32 { bits: 0x80_0000 }
    }

    fn classify(self) -> (r: FpCategory) {
        proof {
            self.lemma_value_holds();
        }
        classify_bits(Kind::F32, self.bits as u64)
    }

    fn is_nan(self) -> (r: bool) {
        self.classify() == FpCategory::Nan
    }

    fn is_infinite(self) -> (r: bool) {
        self.classify() == FpCategory::Infinite
    }

    fn is_finite(self) -> (r: bool) {
        let c = self.classify();
        !(c == FpCategory::Nan || c == FpCategory::Infinite)
    }

    fn is_normal(self) -> (r: bool) {
        self.classify() == FpCategory::Normal
    }

    fn is_sign_positive(self) -> (r: bool) {
        proof {
            lemma2_to64();
            lemma2_to64_rest();
        }
        self.bits < 0x8000_0000
    }

    fn is_sign_negative(self) -> (r: bool) {
        proof {
            lemma2_to64();
            lemma2_to64_rest();
        }
        self.bits >= 0x8000_0000
    }
}

impl Float for F64 {
    fn nan() -> (r: Self) {
        proof {
            lemma2_to64();
            lemma2_to64_rest();
        }
        F64 { bits: 0x7ff8_0000_0000_0000 }
    }

    fn infinity() -> (r: Self) {
        proof {
            lemma2_to64();
            lemma2_to64_rest();
        }
        F64 { bits: 0x7ff0_0000_0000_0000 }
    }

    fn neg_infinity() -> (r: Self) {
        proof {
            lemma2_to64();
            lemma2_to64_rest();
        }
        F64 { bits: 0x8000_0000_0000_0000 + 0x7ff0_0000_0000_0000 }
    }

    fn neg_zero() -> (r: Self) {
        proof {
            lemma2_to64();
            lemma2_to64_rest();
        }
        F64 { bits: 0x8000_0000_0000_0000 }
    }

    fn min_positive_value() -> (r: Self) {
        proof {
            lemma2_to64();
            lemma2_to64_rest();
        }
        F64 { bits: 0x10_0000_0000_0000 }
    }

    fn classify(self) -> (r: FpCategory) {
        proof {
            self.lemma_value_holds();
        }
        classify_bits(Kind::F64, self.bits as u64)
    }

    fn is_nan(self) -> (r: bool) {
        self.classify() == FpCategory::Nan
    }

    fn is_infinite(self) -> (r: bool) {
        self.classify() == FpCategory::Infinite
    }

    fn is_finite(self) -> (r: bool) {
        let c = self.classify();
        !(c == FpCategory::Nan || c == FpCategory::Infinite)
    }

    fn is_normal(self) -> (r: bool) {
        self.classify() == FpCategory::Normal
    }

    fn is_sign_positive(self) -> (r: bool) {
        proof {
            lemma2_to64();
            lemma2_to64_rest();
        }
        self.bits < 0x8000_0000_0000_0000
    }

    fn is_sign_negative(self) -> (r: bool) {
        proof {
            lemma2_to64();
            lemma2_to64_rest();
        }
        self.bits >= 0x8000_0000_0000_0000
    }
}

} // verus!
