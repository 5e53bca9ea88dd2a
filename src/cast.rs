//! Checked conversions between the primitive numeric kinds.
use crate::ieee::{
    encode, encode_bits, float_to_float, float_to_float_exec, float_to_int, float_to_int_exec,
    is_finite_bits, is_inf_bits, lemma_encode_exact, lemma_round_mag_ge, lemma_scaled_integer,
    bit_len, le_bound, max_finite, precision, round_int, scale, significand,
};
use crate::kind::{Kind, Raw, Value};
use crate::numeric::{opt_value, Numeric};
use vstd::arithmetic::div_mod::lemma_small_mod;
use vstd::arithmetic::mul::lemma_mul_nonnegative;
use vstd::arithmetic::power2::{lemma2_to64, lemma_pow2_pos, pow2};
use vstd::prelude::*;

verus! {

/// The magnitude of an integer.
pub open spec fn abs(i: int) -> nat {
    if i < 0 {
        (-i) as nat
    } else {
        i as nat
    }
}

/// The conversion of the value `v`, held by kind `ks`, to kind `kt`:
/// `None` where `kt` cannot represent it under the rule for the two kinds.
///
/// - the same kind: always, unchanged;
/// - integer to integer: where the value lies within the target's bounds;
/// - integer to float: always, rounded to the nearest float, ties to even;
/// - float to integer: where the value lies between the target's bounds,
///   each rounded to the source's kind; the integer part is taken;
/// - float to float: widening always; narrowing where the magnitude is at
///   most the target's largest finite number, a NaN passing as a NaN.
pub open spec fn cast_value(ks: Kind, kt: Kind, v: Value) -> Option<Value> {
    if ks == kt {
        Some(v)
    } else {
        match v {
            Value::Int(i) => if kt.is_int() {
                if kt.min() <= i <= kt.max() {
                    Some(Value::Int(i))
                } else {
                    None
                }
            } else {
                Some(Value::Float(encode(kt, i < 0, abs(i), 0)))
            },
            Value::Float(b) => if kt.is_int() {
                match float_to_int(ks, b, kt) {
                    Some(i) => Some(Value::Int(i)),
                    None => None,
                }
            } else {
                match float_to_float(ks, kt, b) {
                    Some(c) => Some(Value::Float(c)),
                    None => None,
                }
            },
        }
    }
}

/// The values of an optional raw value.
pub open spec fn opt_raw_value(r: Option<Raw>) -> Option<Value> {
    match r {
        Some(x) => Some(x.value()),
        None => None,
    }
}

/// The conversion of a raw value of kind `ks` to kind `kt`.
pub fn cast_raw(ks: Kind, kt: Kind, v: Raw) -> (r: Option<Raw>)
    requires
        ks.holds(v.value()),
    ensures
        opt_raw_value(r) == cast_value(ks, kt, v.value()),
        r.is_some() ==> kt.holds(r.unwrap().value()),
{
    proof {
        lemma2_to64();
    }
    if ks == kt {
        return Some(v);
    }
    match v {
        Raw::Int(i) => {
            if kt.is_float_exec() {
                let neg = i < 0;
                let mag: u64 = if neg { (-i) as u64 } else { i as u64 };
                Some(Raw::Float(encode_bits(kt, neg, mag, 0)))
            } else {
                let (lo, hi) = kt.int_bounds();
                if lo <= i && i <= hi {
                    Some(Raw::Int(i))
                } else {
                    None
                }
            }
        },
        Raw::Float(b) => {
            if kt.is_float_exec() {
                match float_to_float_exec(ks, kt, b) {
                    Some(c) => Some(Raw::Float(c)),
                    None => None,
                }
            } else {
                match float_to_int_exec(ks, b, kt) {
                    Some(i) => {
                        proof {
                            let t = float_to_int(ks, b as nat, kt).unwrap();
                            assert(kt.min() <= t <= kt.max());
                        }
                        Some(Raw::Int(i))
                    },
                    None => None,
                }
            }
        },
    }
}

/// Constructs `Self` from the other type via a checked conversion.
pub trait CastFrom<T: Numeric>: Sized + Numeric {
    /// Constructs `Self` from `x`, or `None` where `Self` cannot represent it.
    fn cast_from(x: T) -> (r: Option<Self>)
        ensures
            opt_value(r) == cast_value(T::kind(), Self::kind(), x.value()),
    ;
}

/// Converts `Self` into the other type via a checked conversion.
pub trait CastInto<T: Numeric>: Sized + Numeric {
    /// Casts `self` into `T`, or `None` where `T` cannot represent it.
    fn cast_into(self) -> (r: Option<T>)
        ensures
            opt_value(r) == cast_value(Self::kind(), T::kind(), self.value()),
    ;
}

impl<S: Numeric, T: Numeric> CastFrom<S> for T {
    fn cast_from(x: S) -> (r: Option<T>) {
        proof {
            x.lemma_value_holds();
        }
        match cast_raw(S::numeric_kind(), T::numeric_kind(), x.to_raw()) {
            Some(v) => Some(T::from_raw(v)),
            None => None,
        }
    }
}

impl<S: Numeric, T: Numeric> CastInto<T> for S {
    fn cast_into(self) -> (r: Option<T>) {
        T::cast_from(self)
    }
}

/// Whether the magnitude of the float with bits `b` of kind `k` exceeds
/// `bound`; an infinity exceeds every bound, a NaN none.
pub open spec fn magnitude_exceeds(k: Kind, b: nat, bound: int) -> bool {
    is_inf_bits(k, b) || (is_finite_bits(k, b) && !le_bound(significand(k, b), scale(k, b), bound))
}

/// A conversion to the same kind never fails and never alters the value.
pub proof fn lemma_cast_same_kind(k: Kind, v: Value)
    requires
        k.holds(v),
    ensures
        cast_value(k, k, v) == Some(v),
{
}

/// Converting a number to its own type gives back that very number.
pub proof fn lemma_cast_from_same_type<T: Numeric>(x: T, r: Option<T>)
    requires
        opt_value(r) == cast_value(T::kind(), T::kind(), x.value()),
    ensures
        r == Some(x),
{
    r.unwrap().lemma_value_injective(x);
}

/// A signed integer converted to a signed kind of equal or greater width
/// keeps its value.
pub proof fn lemma_cast_signed_widening(ks: Kind, kt: Kind, i: int)
    requires
        ks.is_signed_int(),
        kt.is_signed_int(),
        ks.bits() <= kt.bits(),
        ks.holds(Value::Int(i)),
    ensures
        cast_value(ks, kt, Value::Int(i)) == Some(Value::Int(i)),
{
}

/// An unsigned integer converts to a signed kind exactly when it is at most
/// that kind's maximum, and then keeps its value.
pub proof fn lemma_cast_unsigned_to_signed(ks: Kind, kt: Kind, i: int)
    requires
        ks.is_unsigned_int(),
        kt.is_signed_int(),
        ks.holds(Value::Int(i)),
    ensures
        cast_value(ks, kt, Value::Int(i)) == (if i <= kt.max() {
            Some(Value::Int(i))
        } else {
            None
        }),
{
}

/// A float narrowed to a smaller float kind fails exactly when its magnitude
/// exceeds the target's largest finite number.
pub proof fn lemma_cast_float_narrowing(ks: Kind, kt: Kind, b: nat)
    requires
        ks.is_float(),
        kt.is_float(),
        kt.bits() < ks.bits(),
        ks.holds(Value::Float(b)),
    ensures
        cast_value(ks, kt, Value::Float(b)).is_none() == magnitude_exceeds(ks, b, max_finite(kt)),
{
}

/// An integer converted to a kind whose range holds its own, then back,
/// comes back unchanged.
pub proof fn lemma_cast_int_round_trip(k1: Kind, k2: Kind, i: int)
    requires
        k1.is_int(),
        k2.is_int(),
        k2.min() <= k1.min(),
        k1.max() <= k2.max(),
        k1.holds(Value::Int(i)),
    ensures
        cast_value(k1, k2, Value::Int(i)) == Some(Value::Int(i)),
        cast_value(k2, k1, Value::Int(i)) == Some(Value::Int(i)),
{
}

/// An integer that a float kind represents exactly, converted to that kind
/// and back, comes back unchanged.
pub proof fn lemma_cast_int_float_round_trip(ki: Kind, kf: Kind, i: int)
    requires
        ki.is_int(),
        kf.is_float(),
        ki.holds(Value::Int(i)),
        abs(i) < pow2(precision(kf)),
    ensures
        cast_value(ki, kf, Value::Int(i)) == Some(Value::Float(encode(kf, i < 0, abs(i), 0))),
        cast_value(kf, ki, Value::Float(encode(kf, i < 0, abs(i), 0))) == Some(Value::Int(i)),
{
    lemma2_to64();
    let m = abs(i);
    let b = encode(kf, i < 0, m, 0);
    let sc = scale(kf, b);
    if i == 0 {
        lemma_pow2_pos((kf.bits() - 1) as nat);
        lemma_pow2_pos(23);
        lemma_pow2_pos(52);
        lemma_small_mod(0, pow2((kf.bits() - 1) as nat));
        lemma_small_mod(0, pow2(23));
        lemma_small_mod(0, pow2(52));
        assert(b == 0);
        lemma_pow2_pos((-sc) as nat);
        lemma_mul_nonnegative(round_int(kf, ki.max()), pow2((-sc) as nat) as int);
        lemma_small_mod(0, pow2((-sc) as nat));
    } else {
        lemma_encode_exact(kf, i < 0, m);
        let d = (precision(kf) - bit_len(m)) as nat;
        if i < 0 {
            lemma_round_mag_ge(kf, m, (-ki.min()) as nat);
            lemma_scaled_integer(m, d, -round_int(kf, ki.min()));
        } else {
            lemma_round_mag_ge(kf, m, ki.max() as nat);
            lemma_scaled_integer(m, d, round_int(kf, ki.max()));
        }
    }
}

} // verus!
