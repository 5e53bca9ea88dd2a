//! Signed numbers.
use crate::float::{F32, F64};
use crate::ieee::{bias, decode_bits, frac_bits, inf_bits, is_nan_bits, is_neg_bits, sign_bit};
use crate::kind::{Kind, Value};
use crate::numeric::Numeric;
use vstd::arithmetic::power2::{lemma2_to64, lemma2_to64_rest, pow2};
use vstd::prelude::*;

verus! {

/// The absolute value: for an integer kind, its minimum maps to itself; for
/// a float, the sign bit is cleared, so a NaN stays a NaN.
pub open spec fn abs_value(k: Kind, v: Value) -> Value {
    match v {
        Value::Int(i) => if i >= 0 || i == k.min() {
            Value::Int(i)
        } else {
            Value::Int(-i)
        },
        Value::Float(b) => Value::Float(b % sign_bit(k)),
    }
}

/// The sign: `-1`, `0` or `1` for an integer; for a float, `1.0` or `-1.0`
/// after its sign bit (zeros and infinities included), and a quiet NaN for
/// a NaN.
pub open spec fn signum_value(k: Kind, v: Value) -> Value {
    match v {
        Value::Int(i) => Value::Int(
            if i > 0 {
                1
            } else if i < 0 {
                -1
            } else {
                0
            },
        ),
        Value::Float(b) => if is_nan_bits(k, b) {
            Value::Float(inf_bits(k, false) + pow2((frac_bits(k) - 1) as nat))
        } else {
            Value::Float(
                ((if is_neg_bits(k, b) {
                    sign_bit(k)
                } else {
                    0
                }) + bias(k) * pow2(frac_bits(k))) as nat,
            )
        },
    }
}

/// Whether a number is positive: for a float, `+0.0` and `+inf` count, a
/// NaN does not.
pub open spec fn is_positive_value(k: Kind, v: Value) -> bool {
    match v {
        Value::Int(i) => i > 0,
        Value::Float(b) => !is_nan_bits(k, b) && !is_neg_bits(k, b),
    }
}

/// Whether a number is negative: for a float, `-0.0` and `-inf` count, a
/// NaN does not.
pub open spec fn is_negative_value(k: Kind, v: Value) -> bool {
    match v {
        Value::Int(i) => i < 0,
        Value::Float(b) => !is_nan_bits(k, b) && is_neg_bits(k, b),
    }
}

/// Signed numbers.
pub trait Signed: Numeric {
    /// Computes the absolute value.
    ///
    /// For floats, `NaN` will be returned if the number is `NaN`.
    ///
    /// For signed integers, `::MIN` will be returned if the number is `::MIN`.
    fn abs(&self) -> (r: Self)
        ensures
            r.value() == abs_value(Self::kind(), self.value()),
    ;

    /// Returns the sign of the number.
    ///
    /// For floats:
    ///
    /// * `1.0` if the number is positive, `+0.0` or `INFINITY`
    /// * `-1.0` if the number is negative, `-0.0` or `NEG_INFINITY`
    /// * `NaN` if the number is `NaN`
    ///
    /// For signed integers:
    ///
    /// * `0` if the number is zero
    /// * `1` if the number is positive
    /// * `-1` if the number is negative
    fn signum(&self) -> (r: Self)
        ensures
            r.value() == signum_value(Self::kind(), self.value()),
    ;

    /// Returns true if the number is positive and false if the number is zero or negative.
    fn is_positive(&self) -> (r: bool)
        ensures
            r == is_positive_value(Self::kind(), self.value()),
    ;

    /// Returns true if the number is negative and false if the number is zero or positive.
    fn is_negative(&self) -> (r: bool)
        ensures
            r == is_negative_value(Self::kind(), self.value()),
    ;
}

impl Signed for i8 {
    fn abs(&self) -> (r: Self) {
        if *self >= 0 || *self == i8::MIN {
            *self
        } else {
            -*self
        }
    }

    fn signum(&self) -> (r: Self) {
        if *self > 0 {
            1
        } else if *self < 0 {
            -1
        } else {
            0
        }
    }

    fn is_positive(&self) -> (r: bool) {
        *self > 0
    }

    fn is_negative(&self) -> (r: bool) {
        *self < 0
    }
}

impl Signed for i16 {
    fn abs(&self) -> (r: Self) {
        if *self >= 0 || *self == i16::MIN {
            *self
        } else {
            -*self
        }
    }

    fn signum(&self) -> (r: Self) {
        if *self > 0 {
            1
        } else if *self < 0 {
            -1
        } else {
            0
        }
    }

    fn is_positive(&self) -> (r: bool) {
        *self > 0
    }

    fn is_negative(&self) -> (r: bool) {
        *self < 0
    }
}

impl Signed for i32 {
    fn abs(&self) -> (r: Self) {
        if *self >= 0 || *self == i32::MIN {
            *self
        } else {
            -*self
        }
    }

    fn signum(&self) -> (r: Self) {
        if *self > 0 {
            1
        } else if *self < 0 {
            -1
        } else {
            0
        }
    }

    fn is_positive(&self) -> (r: bool) {
        *self > 0
    }

    fn is_negative(&self) -> (r: bool) {
        *self < 0
    }
}

impl Signed for i64 {
    fn abs(&self) -> (r: Self) {
        if *self >= 0 || *self == i64::MIN {
            *self
        } else {
            -*self
        }
    }

    fn signum(&self) -> (r: Self) {
        if *self > 0 {
            1
        } else if *self < 0 {
            -1
        } else {
            0
        }
    }

    fn is_positive(&self) -> (r: bool) {
        *self > 0
    }

    fn is_negative(&self) -> (r: bool) {
        *self < 0
    }
}

impl Signed for isize {
    fn abs(&self) -> (r: Self) {
        if *self >= 0 || *self == isize::MIN {
            *self
        } else {
            -*self
        }
    }

    fn signum(&self) -> (r: Self) {
        if *self > 0 {
            1
        } else if *self < 0 {
            -1
        } else {
            0
        }
    }

    fn is_positive(&self) -> (r: bool) {
        *self > 0
    }

    fn is_negative(&self) -> (r: bool) {
        *self < 0
    }
}

impl Signed for F32 {
    fn abs(&self) -> (r: Self) {
        proof {
            lemma2_to64();
            lemma2_to64_rest();
        }
        F32 { bits: self.bits % 0x8000_0000 }
    }

    fn signum(&self) -> (r: Self) {
        proof {
            lemma2_to64();
            lemma2_to64_rest();
            self.lemma_value_holds();
        }
        let (neg, exp, frac) = decode_bits(Kind::F32, self.bits as u64);
        if exp == 255 && frac != 0 {
            F32 { bits: 0x7fc0_0000 }
        } else if neg {
            F32 { bits: 0x8000_0000 + 0x3f80_0000 }
        } else {
            F32 { bits: 0x3f80_0000 }
        }
    }

    fn is_positive(&self) -> (r: bool) {
        proof {
            self.lemma_value_holds();
        }
        let (neg, exp, frac) = decode_bits(Kind::F32, self.bits as u64);
        !(exp == 255 && frac != 0) && !neg
    }

    fn is_negative(&self) -> (r: bool) {
        proof {
            self.lemma_value_holds();
        }
        let (neg, exp, frac) = decode_bits(Kind::F32, self.bits as u64);
        !(exp == 255 && frac != 0) && neg
    }
}

impl Signed for F64 {
    fn abs(&self) -> (r: Self) {
        proof {
            lemma2_to64();
            lemma2_to64_rest();
        }
        F64 { bits: self.bits % 0x8000_0000_0000_0000 }
    }

    fn signum(&self) -> (r: Self) {
        proof {
            lemma2_to64();
            lemma2_to64_rest();
            self.lemma_value_holds();
        }
        let (neg, exp, frac) = decode_bits(Kind::F64, self.bits as u64);
        if exp == 2047 && frac != 0 {
            F64 { bits: 0x7ff8_0000_0000_0000 }
        } else if neg {
            F64 { bits: 0x8000_0000_0000_0000 + 0x3ff0_0000_0000_0000 }
        } else {
            F64 { bits: 0x3ff0_0000_0000_0000 }
        }
    }

    fn is_positive(&self) -> (r: bool) {
        proof {
            self.lemma_value_holds();
        }
        let (neg, exp, frac) = decode_bits(Kind::F64, self.bits as u64);
        !(exp == 2047 && frac != 0) && !neg
    }

    fn is_negative(&self) -> (r: bool) {
        proof {
            self.lemma_value_holds();
        }
        let (neg, exp, frac) = decode_bits(Kind::F64, self.bits as u64);
        !(exp == 2047 && frac != 0) && neg
    }
}

} // verus!
