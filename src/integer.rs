//! Signed and unsigned integers.
use crate::identity::{One, Zero};
use crate::ieee::{bit_len, bit_len_u64, lemma_bit_len, lemma_bit_len_le, pow2_u128, pow2_u64};
use crate::kind::{Kind, Value};
use crate::numeric::{opt_value, Numeric};
use vstd::arithmetic::div_mod::{
    lemma_div_nonincreasing, lemma_fundamental_div_mod, lemma_fundamental_div_mod_converse,
    lemma_mod_multiples_vanish, lemma_mod_pos_bound, lemma_multiply_divide_lt, lemma_small_mod,
};
use vstd::arithmetic::mul::lemma_mul_inequality;
use vstd::arithmetic::power::{lemma_pow_increases, pow};
use vstd::arithmetic::power2::{
    lemma2_to64, lemma2_to64_rest, lemma_pow2_adds, lemma_pow2_pos, lemma_pow2_strictly_increases, pow2,
};
use std::num::ParseIntError;
use vstd::prelude::*;

verus! {

/// The integer held by an integer value.
pub open spec fn int_of(v: Value) -> int {
    match v {
        Value::Int(i) => i,
        Value::Float(_) => 0,
    }
}

/// `x` where kind `k` can hold it, else `None`.
pub open spec fn checked(k: Kind, x: int) -> Option<Value> {
    if k.min() <= x <= k.max() {
        Some(Value::Int(x))
    } else {
        None
    }
}

/// `x` clamped to the bounds of kind `k`.
pub open spec fn saturated(k: Kind, x: int) -> Value {
    Value::Int(
        if x < k.min() {
            k.min()
        } else if x > k.max() {
            k.max()
        } else {
            x
        },
    )
}

/// A sum or difference `x` of two values of kind `k`, wrapped around at the
/// bounds of the kind.
pub open spec fn wrapped(k: Kind, x: int) -> Value {
    let range = k.max() - k.min() + 1;
    Value::Int(
        if x > k.max() {
            x - range
        } else if x < k.min() {
            x + range
        } else {
            x
        },
    )
}

/// `x` reduced modulo the size of kind `k` into the kind's range.
pub open spec fn wrapped_mod(k: Kind, x: int) -> Value {
    let range = k.max() - k.min() + 1;
    let m = x % range;
    Value::Int(
        if m > k.max() {
            m - range
        } else {
            m
        },
    )
}

/// The value of the digit `c` in radix `radix`: `0`-`9`, then `a`-`z` or
/// `A`-`Z` for ten and up; `None` where `c` is no digit of that radix.
pub open spec fn digit_value(c: char, radix: u32) -> Option<int> {
    let n = c as u32 as int;
    let d: int = if 48 <= n <= 57 {
        n - 48
    } else if 97 <= n <= 122 {
        n - 97 + 10
    } else if 65 <= n <= 90 {
        n - 65 + 10
    } else {
        36
    };
    if d < radix {
        Some(d)
    } else {
        None
    }
}

/// The value of the digits `s` in radix `radix`, most significant first.
pub open spec fn digits_value(s: Seq<char>, radix: u32) -> Option<int>
    decreases s.len(),
{
    if s.len() == 0 {
        Some(0)
    } else {
        match (digits_value(s.drop_last(), radix), digit_value(s.last(), radix)) {
            (Some(v), Some(d)) => Some(v * radix + d),
            _ => None,
        }
    }
}

/// The integer that `s` writes in radix `radix`: an optional `+` sign (or,
/// for a signed type, `-` sign) followed by one or more digits and nothing
/// else; `None` where `s` has another form.
pub open spec fn parsed(s: Seq<char>, radix: u32, signed: bool) -> Option<int> {
    if s.len() == 0 {
        None
    } else if s[0] == '+' || (signed && s[0] == '-') {
        if s.len() == 1 {
            None
        } else {
            match digits_value(s.drop_first(), radix) {
                Some(v) => Some(
                    if s[0] == '-' {
                        -v
                    } else {
                        v
                    },
                ),
                None => None,
            }
        }
    } else {
        digits_value(s, radix)
    }
}

/// What `from_str_radix` gives for `s` in kind `k`: the integer that `s`
/// writes, where `k` holds it.
pub open spec fn parse_in(k: Kind, s: Seq<char>, radix: u32) -> Option<Value> {
    match parsed(s, radix, k.is_signed_int()) {
        Some(v) => checked(k, v),
        None => None,
    }
}

/// The two's-complement bit pattern of `x` in kind `k`, as a number.
pub open spec fn pattern(k: Kind, x: int) -> nat {
    if x < 0 {
        (x + k.max() - k.min() + 1) as nat
    } else {
        x as nat
    }
}

/// The integer of kind `k` whose two's-complement bit pattern is `p`.
pub open spec fn from_pattern(k: Kind, p: nat) -> int {
    if p > k.max() {
        p - pow2(k.bits())
    } else {
        p as int
    }
}

/// The pattern `p` of width `b` rotated left by `s` places: the low `b - s`
/// bits move up by `s`, the high `s` bits come round to the bottom.
pub open spec fn rotated(p: nat, b: nat, s: nat) -> nat {
    (p % pow2((b - s) as nat)) * pow2(s) + p / pow2((b - s) as nat)
}

/// The lowest `n` bytes of `q`, taken from the least significant one up,
/// appended to `acc` from the most significant one down: with `acc == 0`,
/// the bytes of an `n`-byte pattern in reverse order.
pub open spec fn byte_swap(q: nat, n: nat, acc: nat) -> nat
    decreases n,
{
    if n == 0 {
        acc
    } else {
        byte_swap(q / 256, (n - 1) as nat, acc * 256 + q % 256)
    }
}

/// Number of one digits of `n` in binary.
pub open spec fn popcount(n: nat) -> nat
    decreases n,
{
    if n == 0 {
        0
    } else {
        n % 2 + popcount(n / 2)
    }
}

/// Number of zero digits below the lowest one digit of a positive `n`.
pub open spec fn trailing(n: nat) -> nat
    decreases n,
{
    if n == 0 || n % 2 == 1 {
        0
    } else {
        1 + trailing(n / 2)
    }
}

/// Division rounding toward zero.
pub open spec fn trunc_div(a: int, b: int) -> int {
    let q = (if a < 0 {
        -a
    } else {
        a
    }) / (if b < 0 {
        -b
    } else {
        b
    });
    if (a < 0) != (b < 0) {
        -q
    } else {
        q
    }
}

/// The remainder of the division rounding toward zero: it takes the sign of
/// the dividend.
pub open spec fn trunc_rem(a: int, b: int) -> int {
    let d = if b < 0 {
        -b
    } else {
        b
    };
    if a < 0 {
        -((-a) % d)
    } else {
        a % d
    }
}

/// Whether `v` is a power of two: positive, and equal to the power of two
/// of its highest digit.
pub open spec fn is_power_of_two_value(v: nat) -> bool {
    v > 0 && v == pow2((bit_len(v) - 1) as nat)
}

/// The smallest power of two at least `v`.
pub open spec fn next_power_of_two_value(v: nat) -> nat {
    if v <= 1 {
        1
    } else {
        pow2(bit_len((v - 1) as nat))
    }
}

/// Signed and unsigned integers.
pub trait Int: Numeric + Zero + One {
    /// Returns the smallest value that can be represented by this numeric type.
    fn min_value() -> (r: Self)
        ensures
            r.value() == Value::Int(Self::kind().min()),
    ;

    /// Returns the largest value that can be represented by this numeric type.
    fn max_value() -> (r: Self)
        ensures
            r.value() == Value::Int(Self::kind().max()),
    ;

    /// Converts a string slice in a given base to an integer. The radix
    /// must lie between 2 and 36.
    fn from_str_radix(src: &str, radix: u32) -> (r: Result<Self, ParseIntError>)
        requires
            2 <= radix <= 36,
        ensures
            r.is_ok() == parse_in(Self::kind(), src@, radix).is_some(),
            r.is_ok() ==> Some(r.unwrap().value()) == parse_in(Self::kind(), src@, radix),
    ;

    /// Returns the number of ones in the binary representation of `self`.
    fn count_ones(self) -> (r: u32)
        ensures
            r == popcount(pattern(Self::kind(), int_of(self.value()))),
    ;

    /// Returns the number of zeros in the binary representation of `self`.
    fn count_zeros(self) -> (r: u32)
        ensures
            r == Self::kind().bits() - popcount(pattern(Self::kind(), int_of(self.value()))),
    ;

    /// Returns the number of leading zeros in the binary representation of `self`.
    fn leading_zeros(self) -> (r: u32)
        ensures
            r == Self::kind().bits() - bit_len(pattern(Self::kind(), int_of(self.value()))),
    ;

    /// Returns the number of trailing zeros in the binary representation of `self`.
    fn trailing_zeros(self) -> (r: u32)
        ensures
            r == (if int_of(self.value()) == 0 {
                Self::kind().bits() as int
            } else {
                trailing(pattern(Self::kind(), int_of(self.value()))) as int
            }),
    ;

    /// Shifts the bits to the left by a specified amount, `n`,
    /// wrapping the truncated bits to the end of the resulting integer.
    fn rotate_left(self, n: u32) -> (r: Self)
        ensures
            r.value() == Value::Int(from_pattern(Self::kind(), rotated(
                pattern(Self::kind(), int_of(self.value())),
                Self::kind().bits(),
                (n as int % Self::kind().bits() as int) as nat,
            ))),
    ;

    /// Shifts the bits to the right by a specified amount, `n`,
    /// wrapping the truncated bits to the beginning of the resulting integer.
    fn rotate_right(self, n: u32) -> (r: Self)
        ensures
            r.value() == Value::Int(from_pattern(Self::kind(), rotated(
                pattern(Self::kind(), int_of(self.value())),
                Self::kind().bits(),
                (Self::kind().bits() - n as int % Self::kind().bits() as int) as nat,
            ))),
    ;

    /// Panic-free bitwise shift-left; yields `self << mask(rhs)`, where
    /// `mask` keeps `rhs` below the bit width of the type.
    fn wrapping_shl(self, rhs: u32) -> (r: Self)
        ensures
            r.value() == wrapped_mod(Self::kind(), int_of(self.value()) * pow2((rhs as int % Self::kind().bits() as int) as nat)),
    ;

    /// Panic-free bitwise shift-right; yields `self >> mask(rhs)`, where
    /// `mask` keeps `rhs` below the bit width of the type. A signed shift
    /// copies the sign bit, so the result rounds down.
    fn wrapping_shr(self, rhs: u32) -> (r: Self)
        ensures
            r.value() == Value::Int(int_of(self.value()) / pow2((rhs as int % Self::kind().bits() as int) as nat) as int),
    ;

    /// Reverses the byte order of the integer.
    fn swap_bytes(self) -> (r: Self)
        ensures
            r.value() == Value::Int(from_pattern(Self::kind(), byte_swap(
                pattern(Self::kind(), int_of(self.value())),
                Self::kind().bits() / 8,
                0,
            ))),
    ;

    /// Checked integer addition. Computes `self + other`,
    /// returning `None` if overflow occurred.
    fn checked_add(self, other: Self) -> (r: Option<Self>)
        ensures
            opt_value(r) == checked(Self::kind(), int_of(self.value()) + int_of(other.value())),
    ;

    /// Checked integer subtraction. Computes `self - other`,
    /// returning `None` if underflow occurred.
    fn checked_sub(self, other: Self) -> (r: Option<Self>)
        ensures
            opt_value(r) == checked(Self::kind(), int_of(self.value()) - int_of(other.value())),
    ;

    /// Checked integer multiplication. Computes `self * other`,
    /// returning `None` if underflow or overflow occurred.
    fn checked_mul(self, other: Self) -> (r: Option<Self>)
        ensures
            opt_value(r) == checked(Self::kind(), int_of(self.value()) * int_of(other.value())),
    ;

    /// Checked integer division. Computes `self / other`, rounding toward
    /// zero, returning `None` if `other == 0` or the operation results in
    /// underflow or overflow.
    fn checked_div(self, other: Self) -> (r: Option<Self>)
        ensures
            opt_value(r) == (if int_of(other.value()) == 0 {
                None
            } else {
                checked(Self::kind(), trunc_div(int_of(self.value()), int_of(other.value())))
            }),
    ;

    /// Saturating integer addition. Computes `self + other`,
    /// saturating at the numeric bounds instead of overflowing.
    fn saturating_add(self, other: Self) -> (r: Self)
        ensures
            r.value() == saturated(Self::kind(), int_of(self.value()) + int_of(other.value())),
    ;

    /// Saturating integer subtraction. Computes `self - other`,
    /// saturating at the numeric bounds instead of overflowing.
    fn saturating_sub(self, other: Self) -> (r: Self)
        ensures
            r.value() == saturated(Self::kind(), int_of(self.value()) - int_of(other.value())),
    ;

    /// Wrapping (modular) addition. Computes `self + other`,
    /// wrapping around at the boundary of the type.
    fn wrapping_add(self, rhs: Self) -> (r: Self)
        ensures
            r.value() == wrapped(Self::kind(), int_of(self.value()) + int_of(rhs.value())),
    ;

    /// Wrapping (modular) subtraction. Computes `self - other`,
    /// wrapping around at the boundary of the type.
    fn wrapping_sub(self, rhs: Self) -> (r: Self)
        ensures
            r.value() == wrapped(Self::kind(), int_of(self.value()) - int_of(rhs.value())),
    ;

    /// Wrapping (modular) multiplication. Computes `self * other`,
    /// wrapping around at the boundary of the type.
    fn wrapping_mul(self, rhs: Self) -> (r: Self)
        ensures
            r.value() == wrapped_mod(Self::kind(), int_of(self.value()) * int_of(rhs.value())),
    ;

    /// Wrapping (modular) division. Computes `self / other`, rounding toward
    /// zero, wrapping around at the boundary of the type. The divisor must
    /// not be zero.
    fn wrapping_div(self, rhs: Self) -> (r: Self)
        requires
            int_of(rhs.value()) != 0,
        ensures
            r.value() == wrapped(Self::kind(), trunc_div(int_of(self.value()), int_of(rhs.value()))),
    ;

    /// Wrapping (modular) remainder. Computes `self % other`,
    /// wrapping around at the boundary of the type. The divisor must not be
    /// zero.
    fn wrapping_rem(self, rhs: Self) -> (r: Self)
        requires
            int_of(rhs.value()) != 0,
        ensures
            r.value() == Value::Int(trunc_rem(int_of(self.value()), int_of(rhs.value()))),
    ;

    /// Raises self to the power of `exp`. The result must fit in the type.
    fn pow(self, exp: u32) -> (r: Self)
        requires
            Self::kind().min() <= pow(int_of(self.value()), exp as nat) <= Self::kind().max(),
        ensures
            r.value() == Value::Int(pow(int_of(self.value()), exp as nat)),
    ;

    /// Wrapping (modular) negation. Computes `-self`,
    /// wrapping around at the boundary of the type.
    fn wrapping_neg(self) -> (r: Self)
        ensures
            r.value() == wrapped(Self::kind(), -int_of(self.value())),
    ;
}

/// Unsigned integers.
pub trait UnsignedInt: Int {
    /// Returns true if and only if `self == 2^k` for some `k`.
    fn is_power_of_two(self) -> (r: bool)
        ensures
            r == is_power_of_two_value(int_of(self.value()) as nat),
    ;

    /// Returns the smallest power of two greater than or equal to `self`.
    /// The result must fit in the type.
    fn next_power_of_two(self) -> (r: Self)
        requires
            next_power_of_two_value(int_of(self.value()) as nat) <= Self::kind().max(),
        ensures
            r.value() == Value::Int(next_power_of_two_value(int_of(self.value()) as nat) as int),
    ;

    /// Returns the smallest power of two greater than or equal to `self`.
    /// If the next power of two is greater than the type's maximum value,
    /// `None` is returned, otherwise the power of two is wrapped in `Some`.
    fn checked_next_power_of_two(self) -> (r: Option<Self>)
        ensures
            opt_value(r) == checked(Self::kind(), next_power_of_two_value(int_of(self.value()) as nat) as int),
    ;
}

/// The magnitude of an integer.
pub open spec fn magnitude(x: int) -> int {
    if x < 0 {
        -x
    } else {
        x
    }
}

proof fn lemma_magnitude_mul(x: int, y: int)
    ensures
        magnitude(x * y) == magnitude(x) * magnitude(y),
{
    if x >= 0 && y >= 0 {
        assert(x * y >= 0) by (nonlinear_arith)
            requires
                x >= 0,
                y >= 0,
        ;
    } else if x < 0 && y < 0 {
        assert(x * y == (-x) * (-y) && (-x) * (-y) >= 0) by (nonlinear_arith)
            requires
                x < 0,
                y < 0,
        ;
    } else if x < 0 {
        assert(x * y == -((-x) * y) && (-x) * y >= 0) by (nonlinear_arith)
            requires
                x < 0,
                y >= 0,
        ;
    } else {
        assert(x * y == -(x * (-y)) && x * (-y) >= 0) by (nonlinear_arith)
            requires
                x >= 0,
                y < 0,
        ;
    }
}

proof fn lemma_pow_magnitude(a: int, e: nat)
    ensures
        magnitude(pow(a, e)) == pow(magnitude(a), e),
    decreases e,
{
    reveal(pow);
    if e > 0 {
        lemma_pow_magnitude(a, (e - 1) as nat);
        lemma_magnitude_mul(a, pow(a, (e - 1) as nat));
    }
}

/// `a` raised to the power `exp`, where the result is at most `2^64` in
/// magnitude.
fn pow_i128(a: i128, exp: u32) -> (r: i128)
    requires
        magnitude(a as int) <= 0x1_0000_0000_0000_0000,
        magnitude(pow(a as int, exp as nat)) <= 0x1_0000_0000_0000_0000,
    ensures
        r == pow(a as int, exp as nat),
{
    let mut r: i128 = 1;
    let mut i: u32 = 0;
    proof {
        reveal(pow);
    }
    while i < exp
        invariant
            i <= exp,
            r == pow(a as int, i as nat),
            magnitude(a as int) <= 0x1_0000_0000_0000_0000,
            magnitude(pow(a as int, exp as nat)) <= 0x1_0000_0000_0000_0000,
        decreases exp - i,
    {
        proof {
            reveal(pow);
            let next = (i + 1) as nat;
            assert(pow(a as int, next) == a * pow(a as int, i as nat));
            lemma_pow_magnitude(a as int, next);
            lemma_pow_magnitude(a as int, exp as nat);
            if a != 0 {
                lemma_pow_increases(magnitude(a as int) as nat, next, exp as nat);
            }
            assert(r * a == a * r) by (nonlinear_arith);
            lemma_magnitude_mul(a as int, r as int);
        }
        r = r * a;
        i = i + 1;
    }
    r
}

proof fn lemma_popcount_le(n: nat)
    ensures
        popcount(n) <= bit_len(n),
    decreases n,
{
    if n > 0 {
        lemma_popcount_le(n / 2);
    }
}

proof fn lemma_trailing_lt(n: nat)
    requires
        n > 0,
    ensures
        trailing(n) < bit_len(n),
    decreases n,
{
    if n % 2 == 0 {
        lemma_trailing_lt(n / 2);
    }
}

/// Number of one digits of `n`.
fn popcount_u64(n: u64) -> (r: u32)
    ensures
        r == popcount(n as nat),
{
    proof {
        lemma2_to64();
        lemma_bit_len_le(n as nat, 64);
        lemma_popcount_le(n as nat);
    }
    let mut m: u64 = n;
    let mut c: u32 = 0;
    while m > 0
        invariant
            c + popcount(m as nat) == popcount(n as nat),
            popcount(n as nat) <= 64,
        decreases m,
    {
        c = c + (m % 2) as u32;
        m = m / 2;
    }
    c
}

/// Number of zero digits below the lowest one digit of a positive `n`.
fn trailing_u64(n: u64) -> (r: u32)
    requires
        n > 0,
    ensures
        r == trailing(n as nat),
{
    proof {
        lemma2_to64();
        lemma_bit_len_le(n as nat, 64);
        lemma_trailing_lt(n as nat);
    }
    let mut m: u64 = n;
    let mut c: u32 = 0;
    while m % 2 == 0
        invariant
            m > 0,
            c + trailing(m as nat) == trailing(n as nat),
            trailing(n as nat) < 64,
        decreases m,
    {
        c = c + 1;
        m = m / 2;
    }
    c
}

/// std's `ParseIntError`, carried through as an opaque value.
#[verifier::external_type_specification]
#[verifier::external_body]
pub struct ExParseIntError(ParseIntError);

/// Relies on `i8::from_str_radix`: an optional sign and the digits of the
/// radix, read as an integer; an error where the text has another form or
/// the integer does not fit.
#[verifier::external_body]
fn parse_i8(src: &str, radix: u32) -> (r: Result<i8, ParseIntError>)
    requires
        2 <= radix <= 36,
    ensures
        r.is_ok() == (parsed(src@, radix, true) is Some && i8::MIN <= parsed(src@, radix, true)->0 <= i8::MAX),
        r.is_ok() ==> r.unwrap() as int == parsed(src@, radix, true)->0,
{
    i8::from_str_radix(src, radix)
}

/// Relies on `i16::from_str_radix`: an optional sign and the digits of the
/// radix, read as an integer; an error where the text has another form or
/// the integer does not fit.
#[verifier::external_body]
fn parse_i16(src: &str, radix: u32) -> (r: Result<i16, ParseIntError>)
    requires
        2 <= radix <= 36,
    ensures
        r.is_ok() == (parsed(src@, radix, true) is Some && i16::MIN <= parsed(src@, radix, true)->0 <= i16::MAX),
        r.is_ok() ==> r.unwrap() as int == parsed(src@, radix, true)->0,
{
    i16::from_str_radix(src, radix)
}

/// Relies on `i32::from_str_radix`: an optional sign and the digits of the
/// radix, read as an integer; an error where the text has another form or
/// the integer does not fit.
#[verifier::external_body]
fn parse_i32(src: &str, radix: u32) -> (r: Result<i32, ParseIntError>)
    requires
        2 <= radix <= 36,
    ensures
        r.is_ok() == (parsed(src@, radix, true) is Some && i32::MIN <= parsed(src@, radix, true)->0 <= i32::MAX),
        r.is_ok() ==> r.unwrap() as int == parsed(src@, radix, true)->0,
{
    i32::from_str_radix(src, radix)
}

/// Relies on `i64::from_str_radix`: an optional sign and the digits of the
/// radix, read as an integer; an error where the text has another form or
/// the integer does not fit.
#[verifier::external_body]
fn parse_i64(src: &str, radix: u32) -> (r: Result<i64, ParseIntError>)
    requires
        2 <= radix <= 36,
    ensures
        r.is_ok() == (parsed(src@, radix, true) is Some && i64::MIN <= parsed(src@, radix, true)->0 <= i64::MAX),
        r.is_ok() ==> r.unwrap() as int == parsed(src@, radix, true)->0,
{
    i64::from_str_radix(src, radix)
}

/// Relies on `isize::from_str_radix`: an optional sign and the digits of the
/// radix, read as an integer; an error where the text has another form or
/// the integer does not fit.
#[verifier::external_body]
fn parse_isize(src: &str, radix: u32) -> (r: Result<isize, ParseIntError>)
    requires
        2 <= radix <= 36,
    ensures
        r.is_ok() == (parsed(src@, radix, true) is Some && isize::MIN <= parsed(src@, radix, true)->0 <= isize::MAX),
        r.is_ok() ==> r.unwrap() as int == parsed(src@, radix, true)->0,
{
    isize::from_str_radix(src, radix)
}

/// Relies on `u8::from_str_radix`: an optional sign and the digits of the
/// radix, read as an integer; an error where the text has another form or
/// the integer does not fit.
#[verifier::external_body]
fn parse_u8(src: &str, radix: u32) -> (r: Result<u8, ParseIntError>)
    requires
        2 <= radix <= 36,
    ensures
        r.is_ok() == (parsed(src@, radix, false) is Some && u8::MIN <= parsed(src@, radix, false)->0 <= u8::MAX),
        r.is_ok() ==> r.unwrap() as int == parsed(src@, radix, false)->0,
{
    u8::from_str_radix(src, radix)
}

/// Relies on `u16::from_str_radix`: an optional sign and the digits of the
/// radix, read as an integer; an error where the text has another form or
/// the integer does not fit.
#[verifier::external_body]
fn parse_u16(src: &str, radix: u32) -> (r: Result<u16, ParseIntError>)
    requires
        2 <= radix <= 36,
    ensures
        r.is_ok() == (parsed(src@, radix, false) is Some && u16::MIN <= parsed(src@, radix, false)->0 <= u16::MAX),
        r.is_ok() ==> r.unwrap() as int == parsed(src@, radix, false)->0,
{
    u16::from_str_radix(src, radix)
}

/// Relies on `u32::from_str_radix`: an optional sign and the digits of the
/// radix, read as an integer; an error where the text has another form or
/// the integer does not fit.
#[verifier::external_body]
fn parse_u32(src: &str, radix: u32) -> (r: Result<u32, ParseIntError>)
    requires
        2 <= radix <= 36,
    ensures
        r.is_ok() == (parsed(src@, radix, false) is Some && u32::MIN <= parsed(src@, radix, false)->0 <= u32::MAX),
        r.is_ok() ==> r.unwrap() as int == parsed(src@, radix, false)->0,
{
    u32::from_str_radix(src, radix)
}

/// Relies on `u64::from_str_radix`: an optional sign and the digits of the
/// radix, read as an integer; an error where the text has another form or
/// the integer does not fit.
#[verifier::external_body]
fn parse_u64(src: &str, radix: u32) -> (r: Result<u64, ParseIntError>)
    requires
        2 <= radix <= 36,
    ensures
        r.is_ok() == (parsed(src@, radix, false) is Some && u64::MIN <= parsed(src@, radix, false)->0 <= u64::MAX),
        r.is_ok() ==> r.unwrap() as int == parsed(src@, radix, false)->0,
{
    u64::from_str_radix(src, radix)
}

/// Relies on `usize::from_str_radix`: an optional sign and the digits of the
/// radix, read as an integer; an error where the text has another form or
/// the integer does not fit.
#[verifier::external_body]
fn parse_usize(src: &str, radix: u32) -> (r: Result<usize, ParseIntError>)
    requires
        2 <= radix <= 36,
    ensures
        r.is_ok() == (parsed(src@, radix, false) is Some && usize::MIN <= parsed(src@, radix, false)->0 <= usize::MAX),
        r.is_ok() ==> r.unwrap() as int == parsed(src@, radix, false)->0,
{
    usize::from_str_radix(src, radix)
}

proof fn lemma_range(k: Kind)
    requires
        k.is_int(),
    ensures
        k.max() - k.min() + 1 == pow2(k.bits()),
        k.is_signed_int() ==> k.min() == -pow2((k.bits() - 1) as nat),
        !k.is_signed_int() ==> k.min() == 0,
        8 <= k.bits() <= 64,
{
    lemma2_to64();
    lemma2_to64_rest();
}

/// The two's-complement bit pattern of `v` in kind `k`.
fn to_pattern(k: Kind, v: i128) -> (p: u128)
    requires
        k.is_int(),
        k.min() <= v <= k.max(),
    ensures
        p == pattern(k, v as int),
        p < pow2(k.bits()),
{
    proof {
        lemma_range(k);
    }
    let (lo, hi) = k.int_bounds();
    if v < 0 {
        (v + (hi - lo + 1)) as u128
    } else {
        v as u128
    }
}

/// The integer of kind `k` with the bit pattern `p`.
fn of_pattern(k: Kind, p: u128) -> (v: i128)
    requires
        k.is_int(),
        p < pow2(k.bits()),
    ensures
        v == from_pattern(k, p as nat),
        k.min() <= v <= k.max(),
{
    proof {
        lemma_range(k);
    }
    let (lo, hi) = k.int_bounds();
    if p > hi as u128 {
        (p as i128) - (hi - lo + 1)
    } else {
        p as i128
    }
}

/// The pattern `p` of width `b` rotated left by `s` places.
fn rotate_pattern(p: u128, b: u32, s: u32) -> (r: u128)
    requires
        b <= 64,
        s <= b,
        p < pow2(b as nat),
    ensures
        r == rotated(p as nat, b as nat, s as nat),
        r < pow2(b as nat),
{
    let lo = pow2_u128((b - s) as u64);
    let hi = pow2_u128(s as u64);
    proof {
        lemma_pow2_pos((b - s) as nat);
        lemma_pow2_pos(s as nat);
        lemma_pow2_adds((b - s) as nat, s as nat);
        lemma_mod_pos_bound(p as int, lo as int);
        lemma_multiply_divide_lt(p as int, lo as int, hi as int);
        lemma_mul_inequality((p % lo) as int, (lo - 1) as int, hi as int);
        assert((lo - 1) * hi == lo * hi - hi) by (nonlinear_arith);
        lemma2_to64();
        if b < 64 {
            lemma_pow2_strictly_increases(b as nat, 64);
        }
    }
    (p % lo) * hi + p / lo
}

/// The `n`-byte pattern `p` with its bytes in reverse order.
fn swap_pattern(p: u128, n: u32) -> (r: u128)
    requires
        n <= 8,
    ensures
        r == byte_swap(p as nat, n as nat, 0),
        r < pow2(8 * n as nat),
{
    proof {
        lemma2_to64();
    }
    let mut q: u128 = p;
    let mut acc: u128 = 0;
    let mut i: u32 = 0;
    while i < n
        invariant
            i <= n <= 8,
            byte_swap(q as nat, (n - i) as nat, acc as nat) == byte_swap(p as nat, n as nat, 0),
            acc < pow2(8 * i as nat),
        decreases n - i,
    {
        proof {
            lemma2_to64();
            lemma_pow2_adds(8 * i as nat, 8);
            if 8 * i < 64 {
                lemma_pow2_strictly_increases(8 * i as nat, 64);
            }
            assert(acc * 256 + q % 256 < pow2(8 * i as nat) * 256) by (nonlinear_arith)
                requires
                    acc < pow2(8 * i as nat),
                    q % 256 < 256,
            ;
        }
        acc = acc * 256 + q % 256;
        q = q / 256;
        i = i + 1;
    }
    acc
}

/// `v` of kind `k` shifted left by `s` places, wrapped into the kind.
fn shl_value(k: Kind, v: i128, s: u32) -> (r: i128)
    requires
        k.is_int(),
        k.min() <= v <= k.max(),
        s < k.bits(),
    ensures
        Value::Int(r as int) == wrapped_mod(k, v * pow2(s as nat)),
{
    proof {
        lemma_range(k);
        lemma2_to64();
        lemma2_to64_rest();
    }
    let p = to_pattern(k, v);
    let pw = pow2_u128(s as u64);
    let range = pow2_u128(k.bits_exec() as u64);
    proof {
        lemma_pow2_pos(s as nat);
        lemma_mul_inequality(p as int, pow2(64) as int, pw as int);
        lemma_mul_inequality(pw as int, pow2(63) as int, pow2(64) as int);
        if s < 63 {
            lemma_pow2_strictly_increases(s as nat, 63);
        }
        lemma_pow2_adds(64, 63);
        if v < 0 {
            assert((v + range) * pw == range * pw + v * pw) by (nonlinear_arith);
            lemma_mod_multiples_vanish(pw as int, v * pw, range as int);
        }
    }
    let x = p * pw;
    of_pattern(k, x % range)
}

/// `v` of kind `k` divided by `2^s`, rounding down.
fn shr_value(k: Kind, v: i128, s: u32) -> (r: i128)
    requires
        k.is_int(),
        k.min() <= v <= k.max(),
        s < k.bits(),
    ensures
        r == v as int / pow2(s as nat) as int,
        k.min() <= r <= k.max(),
{
    proof {
        lemma_range(k);
        lemma2_to64();
    }
    let d = pow2_u128(s as u64);
    proof {
        lemma_pow2_pos(s as nat);
    }
    if v >= 0 {
        proof {
            lemma_div_nonincreasing(v as int, d as int);
        }
        return (v as u128 / d) as i128;
    }
    let p = to_pattern(k, v);
    let range = pow2_u128(k.bits_exec() as u64);
    let c = pow2_u128((k.bits_exec() - s) as u64);
    proof {
        lemma_pow2_adds((k.bits() - s) as nat, s as nat);
        lemma_fundamental_div_mod(p as int, d as int);
        lemma_mod_pos_bound(p as int, d as int);
        let q = p as int / d as int;
        let m = p as int % d as int;
        assert(v == (q - c) * d + m) by (nonlinear_arith)
            requires
                p == v + range,
                p == d * q + m,
                range == c * d,
        ;
        lemma_fundamental_div_mod_converse(v as int, d as int, q - c, m);
        let vi = v as int;
        let di = d as int;
        assert(vi / di >= vi) by (nonlinear_arith)
            requires
                vi < 0,
                di >= 1,
                vi == (vi / di) * di + m,
                0 <= m < di,
        ;
    }
    (p / d) as i128 - c as i128
}


/// Whether `v` is a power of two.
fn is_power_of_two_u64(v: u64) -> (r: bool)
    ensures
        r == is_power_of_two_value(v as nat),
{
    if v == 0 {
        return false;
    }
    let l = bit_len_u64(v);
    proof {
        lemma_bit_len(v as nat);
    }
    v == pow2_u64(l - 1)
}

/// The smallest power of two at least `v`, where it is at most `max`.
fn checked_next_power_of_two_u64(v: u64, max: u64) -> (r: Option<u64>)
    ensures
        r.is_some() == (next_power_of_two_value(v as nat) <= max),
        r.is_some() ==> r.unwrap() == next_power_of_two_value(v as nat),
{
    proof {
        lemma2_to64();
    }
    if v <= 1 {
        return if max >= 1 { Some(1) } else { None };
    }
    let l = bit_len_u64(v - 1);
    proof {
        lemma_bit_len((v - 1) as nat);
        lemma_bit_len_le((v - 1) as nat, 64);
    }
    if l >= 64 {
        return None;
    }
    let p = pow2_u64(l);
    if p <= max {
        Some(p)
    } else {
        None
    }
}

impl Int for i8 {
    fn min_value() -> (r: Self) {
        i8::MIN
    }

    fn max_value() -> (r: Self) {
        i8::MAX
    }

    fn swap_bytes(self) -> (r: Self) {
        let k = Kind::I8;
        proof {
            lemma_range(k);
        }
        let p = to_pattern(k, self as i128);
        of_pattern(k, swap_pattern(p, k.bits_exec() / 8)) as i8
    }

    fn rotate_left(self, n: u32) -> (r: Self) {
        let k = Kind::I8;
        let b = k.bits_exec();
        proof {
            lemma_range(k);
        }
        let p = to_pattern(k, self as i128);
        of_pattern(k, rotate_pattern(p, b, n % b)) as i8
    }

    fn rotate_right(self, n: u32) -> (r: Self) {
        let k = Kind::I8;
        let b = k.bits_exec();
        proof {
            lemma_range(k);
        }
        let p = to_pattern(k, self as i128);
        of_pattern(k, rotate_pattern(p, b, b - n % b)) as i8
    }

    fn wrapping_shl(self, rhs: u32) -> (r: Self) {
        let k = Kind::I8;
        proof {
            lemma_range(k);
        }
        shl_value(k, self as i128, rhs % k.bits_exec()) as i8
    }

    fn wrapping_shr(self, rhs: u32) -> (r: Self) {
        let k = Kind::I8;
        proof {
            lemma_range(k);
        }
        shr_value(k, self as i128, rhs % k.bits_exec()) as i8
    }

    fn from_str_radix(src: &str, radix: u32) -> (r: Result<Self, ParseIntError>) {
        parse_i8(src, radix)
    }

    fn count_ones(self) -> (r: u32) {
        let p: u64 = if self < 0 {
            (self as i128 + (i8::MAX as i128 - i8::MIN as i128 + 1)) as u64
        } else {
            self as u64
        };
        popcount_u64(p)
    }

    fn count_zeros(self) -> (r: u32) {
        let p: u64 = if self < 0 {
            (self as i128 + (i8::MAX as i128 - i8::MIN as i128 + 1)) as u64
        } else {
            self as u64
        };
        proof {
            lemma2_to64();
            lemma_bit_len_le(p as nat, Self::kind().bits());
            lemma_popcount_le(p as nat);
        }
        8 - popcount_u64(p)
    }

    fn leading_zeros(self) -> (r: u32) {
        let p: u64 = if self < 0 {
            (self as i128 + (i8::MAX as i128 - i8::MIN as i128 + 1)) as u64
        } else {
            self as u64
        };
        proof {
            lemma2_to64();
            lemma_bit_len_le(p as nat, Self::kind().bits());
        }
        8 - bit_len_u64(p) as u32
    }

    fn trailing_zeros(self) -> (r: u32) {
        if self == 0 {
            return 8;
        }
        let p: u64 = if self < 0 {
            (self as i128 + (i8::MAX as i128 - i8::MIN as i128 + 1)) as u64
        } else {
            self as u64
        };
        trailing_u64(p)
    }

    fn checked_add(self, other: Self) -> (r: Option<Self>) {
        i8::checked_add(self, other)
    }

    fn checked_sub(self, other: Self) -> (r: Option<Self>) {
        i8::checked_sub(self, other)
    }

    fn checked_mul(self, other: Self) -> (r: Option<Self>) {
        i8::checked_mul(self, other)
    }

    fn checked_div(self, other: Self) -> (r: Option<Self>) {
        i8::checked_div(self, other)
    }

    fn saturating_add(self, other: Self) -> (r: Self) {
        let s = self as i128 + other as i128;
        if s > i8::MAX as i128 {
            i8::MAX
        } else if s < i8::MIN as i128 {
            i8::MIN
        } else {
            s as i8
        }
    }

    fn saturating_sub(self, other: Self) -> (r: Self) {
        let s = self as i128 - other as i128;
        if s > i8::MAX as i128 {
            i8::MAX
        } else if s < i8::MIN as i128 {
            i8::MIN
        } else {
            s as i8
        }
    }

    fn wrapping_add(self, rhs: Self) -> (r: Self) {
        i8::wrapping_add(self, rhs)
    }

    fn wrapping_sub(self, rhs: Self) -> (r: Self) {
        i8::wrapping_sub(self, rhs)
    }

    fn wrapping_mul(self, rhs: Self) -> (r: Self) {
        i8::wrapping_mul(self, rhs)
    }

    fn wrapping_div(self, rhs: Self) -> (r: Self) {
        proof {
            let a = self as int;
            let b = rhs as int;
            lemma_div_nonincreasing(if a < 0 { -a } else { a }, if b < 0 { -b } else { b });
        }
        match i8::checked_div(self, rhs) {
            Some(q) => q,
            None => i8::MIN,
        }
    }

    fn wrapping_rem(self, rhs: Self) -> (r: Self) {
        proof {
            let a = self as int;
            let b = rhs as int;
            let d = if b < 0 { -b } else { b };
            lemma_mod_pos_bound(if a < 0 { -a } else { a }, d);
            lemma_small_mod(0, d as nat);
        }
        match i8::checked_rem(self, rhs) {
            Some(m) => m,
            None => 0,
        }
    }

    fn wrapping_neg(self) -> (r: Self) {
        i8::wrapping_sub(0, self)
    }

    fn pow(self, exp: u32) -> (r: Self) {
        pow_i128(self as i128, exp) as i8
    }
}

impl Int for i16 {
    fn min_value() -> (r: Self) {
        i16::MIN
    }

    fn max_value() -> (r: Self) {
        i16::MAX
    }

    fn swap_bytes(self) -> (r: Self) {
        let k = Kind::I16;
        proof {
            lemma_range(k);
        }
        let p = to_pattern(k, self as i128);
        of_pattern(k, swap_pattern(p, k.bits_exec() / 8)) as i16
    }

    fn rotate_left(self, n: u32) -> (r: Self) {
        let k = Kind::I16;
        let b = k.bits_exec();
        proof {
            lemma_range(k);
        }
        let p = to_pattern(k, self as i128);
        of_pattern(k, rotate_pattern(p, b, n % b)) as i16
    }

    fn rotate_right(self, n: u32) -> (r: Self) {
        let k = Kind::I16;
        let b = k.bits_exec();
        proof {
            lemma_range(k);
        }
        let p = to_pattern(k, self as i128);
        of_pattern(k, rotate_pattern(p, b, b - n % b)) as i16
    }

    fn wrapping_shl(self, rhs: u32) -> (r: Self) {
        let k = Kind::I16;
        proof {
            lemma_range(k);
        }
        shl_value(k, self as i128, rhs % k.bits_exec()) as i16
    }

    fn wrapping_shr(self, rhs: u32) -> (r: Self) {
        let k = Kind::I16;
        proof {
            lemma_range(k);
        }
        shr_value(k, self as i128, rhs % k.bits_exec()) as i16
    }

    fn from_str_radix(src: &str, radix: u32) -> (r: Result<Self, ParseIntError>) {
        parse_i16(src, radix)
    }

    fn count_ones(self) -> (r: u32) {
        let p: u64 = if self < 0 {
            (self as i128 + (i16::MAX as i128 - i16::MIN as i128 + 1)) as u64
        } else {
            self as u64
        };
        popcount_u64(p)
    }

    fn count_zeros(self) -> (r: u32) {
        let p: u64 = if self < 0 {
            (self as i128 + (i16::MAX as i128 - i16::MIN as i128 + 1)) as u64
        } else {
            self as u64
        };
        proof {
            lemma2_to64();
            lemma_bit_len_le(p as nat, Self::kind().bits());
            lemma_popcount_le(p as nat);
        }
        16 - popcount_u64(p)
    }

    fn leading_zeros(self) -> (r: u32) {
        let p: u64 = if self < 0 {
            (self as i128 + (i16::MAX as i128 - i16::MIN as i128 + 1)) as u64
        } else {
            self as u64
        };
        proof {
            lemma2_to64();
            lemma_bit_len_le(p as nat, Self::kind().bits());
        }
        16 - bit_len_u64(p) as u32
    }

    fn trailing_zeros(self) -> (r: u32) {
        if self == 0 {
            return 16;
        }
        let p: u64 = if self < 0 {
            (self as i128 + (i16::MAX as i128 - i16::MIN as i128 + 1)) as u64
        } else {
            self as u64
        };
        trailing_u64(p)
    }

    fn checked_add(self, other: Self) -> (r: Option<Self>) {
        i16::checked_add(self, other)
    }

    fn checked_sub(self, other: Self) -> (r: Option<Self>) {
        i16::checked_sub(self, other)
    }

    fn checked_mul(self, other: Self) -> (r: Option<Self>) {
        i16::checked_mul(self, other)
    }

    fn checked_div(self, other: Self) -> (r: Option<Self>) {
        i16::checked_div(self, other)
    }

    fn saturating_add(self, other: Self) -> (r: Self) {
        let s = self as i128 + other as i128;
        if s > i16::MAX as i128 {
            i16::MAX
        } else if s < i16::MIN as i128 {
            i16::MIN
        } else {
            s as i16
        }
    }

    fn saturating_sub(self, other: Self) -> (r: Self) {
        let s = self as i128 - other as i128;
        if s > i16::MAX as i128 {
            i16::MAX
        } else if s < i16::MIN as i128 {
            i16::MIN
        } else {
            s as i16
        }
    }

    fn wrapping_add(self, rhs: Self) -> (r: Self) {
        i16::wrapping_add(self, rhs)
    }

    fn wrapping_sub(self, rhs: Self) -> (r: Self) {
        i16::wrapping_sub(self, rhs)
    }

    fn wrapping_mul(self, rhs: Self) -> (r: Self) {
        i16::wrapping_mul(self, rhs)
    }

    fn wrapping_div(self, rhs: Self) -> (r: Self) {
        proof {
            let a = self as int;
            let b = rhs as int;
            lemma_div_nonincreasing(if a < 0 { -a } else { a }, if b < 0 { -b } else { b });
        }
        match i16::checked_div(self, rhs) {
            Some(q) => q,
            None => i16::MIN,
        }
    }

    fn wrapping_rem(self, rhs: Self) -> (r: Self) {
        proof {
            let a = self as int;
            let b = rhs as int;
            let d = if b < 0 { -b } else { b };
            lemma_mod_pos_bound(if a < 0 { -a } else { a }, d);
            lemma_small_mod(0, d as nat);
        }
        match i16::checked_rem(self, rhs) {
            Some(m) => m,
            None => 0,
        }
    }

    fn wrapping_neg(self) -> (r: Self) {
        i16::wrapping_sub(0, self)
    }

    fn pow(self, exp: u32) -> (r: Self) {
        pow_i128(self as i128, exp) as i16
    }
}

impl Int for i32 {
    fn min_value() -> (r: Self) {
        i32::MIN
    }

    fn max_value() -> (r: Self) {
        i32::MAX
    }

    fn swap_bytes(self) -> (r: Self) {
        let k = Kind::I32;
        proof {
            lemma_range(k);
        }
        let p = to_pattern(k, self as i128);
        of_pattern(k, swap_pattern(p, k.bits_exec() / 8)) as i32
    }

    fn rotate_left(self, n: u32) -> (r: Self) {
        let k = Kind::I32;
        let b = k.bits_exec();
        proof {
            lemma_range(k);
        }
        let p = to_pattern(k, self as i128);
        of_pattern(k, rotate_pattern(p, b, n % b)) as i32
    }

    fn rotate_right(self, n: u32) -> (r: Self) {
        let k = Kind::I32;
        let b = k.bits_exec();
        proof {
            lemma_range(k);
        }
        let p = to_pattern(k, self as i128);
        of_pattern(k, rotate_pattern(p, b, b - n % b)) as i32
    }

    fn wrapping_shl(self, rhs: u32) -> (r: Self) {
        let k = Kind::I32;
        proof {
            lemma_range(k);
        }
        shl_value(k, self as i128, rhs % k.bits_exec()) as i32
    }

    fn wrapping_shr(self, rhs: u32) -> (r: Self) {
        let k = Kind::I32;
        proof {
            lemma_range(k);
        }
        shr_value(k, self as i128, rhs % k.bits_exec()) as i32
    }

    fn from_str_radix(src: &str, radix: u32) -> (r: Result<Self, ParseIntError>) {
        parse_i32(src, radix)
    }

    fn count_ones(self) -> (r: u32) {
        let p: u64 = if self < 0 {
            (self as i128 + (i32::MAX as i128 - i32::MIN as i128 + 1)) as u64
        } else {
            self as u64
        };
        popcount_u64(p)
    }

    fn count_zeros(self) -> (r: u32) {
        let p: u64 = if self < 0 {
            (self as i128 + (i32::MAX as i128 - i32::MIN as i128 + 1)) as u64
        } else {
            self as u64
        };
        proof {
            lemma2_to64();
            lemma_bit_len_le(p as nat, Self::kind().bits());
            lemma_popcount_le(p as nat);
        }
        32 - popcount_u64(p)
    }

    fn leading_zeros(self) -> (r: u32) {
        let p: u64 = if self < 0 {
            (self as i128 + (i32::MAX as i128 - i32::MIN as i128 + 1)) as u64
        } else {
            self as u64
        };
        proof {
            lemma2_to64();
            lemma_bit_len_le(p as nat, Self::kind().bits());
        }
        32 - bit_len_u64(p) as u32
    }

    fn trailing_zeros(self) -> (r: u32) {
        if self == 0 {
            return 32;
        }
        let p: u64 = if self < 0 {
            (self as i128 + (i32::MAX as i128 - i32::MIN as i128 + 1)) as u64
        } else {
            self as u64
        };
        trailing_u64(p)
    }

    fn checked_add(self, other: Self) -> (r: Option<Self>) {
        i32::checked_add(self, other)
    }

    fn checked_sub(self, other: Self) -> (r: Option<Self>) {
        i32::checked_sub(self, other)
    }

    fn checked_mul(self, other: Self) -> (r: Option<Self>) {
        i32::checked_mul(self, other)
    }

    fn checked_div(self, other: Self) -> (r: Option<Self>) {
        i32::checked_div(self, other)
    }

    fn saturating_add(self, other: Self) -> (r: Self) {
        let s = self as i128 + other as i128;
        if s > i32::MAX as i128 {
            i32::MAX
        } else if s < i32::MIN as i128 {
            i32::MIN
        } else {
            s as i32
        }
    }

    fn saturating_sub(self, other: Self) -> (r: Self) {
        let s = self as i128 - other as i128;
        if s > i32::MAX as i128 {
            i32::MAX
        } else if s < i32::MIN as i128 {
            i32::MIN
        } else {
            s as i32
        }
    }

    fn wrapping_add(self, rhs: Self) -> (r: Self) {
        i32::wrapping_add(self, rhs)
    }

    fn wrapping_sub(self, rhs: Self) -> (r: Self) {
        i32::wrapping_sub(self, rhs)
    }

    fn wrapping_mul(self, rhs: Self) -> (r: Self) {
        i32::wrapping_mul(self, rhs)
    }

    fn wrapping_div(self, rhs: Self) -> (r: Self) {
        proof {
            let a = self as int;
            let b = rhs as int;
            lemma_div_nonincreasing(if a < 0 { -a } else { a }, if b < 0 { -b } else { b });
        }
        match i32::checked_div(self, rhs) {
            Some(q) => q,
            None => i32::MIN,
        }
    }

    fn wrapping_rem(self, rhs: Self) -> (r: Self) {
        proof {
            let a = self as int;
            let b = rhs as int;
            let d = if b < 0 { -b } else { b };
            lemma_mod_pos_bound(if a < 0 { -a } else { a }, d);
            lemma_small_mod(0, d as nat);
        }
        match i32::checked_rem(self, rhs) {
            Some(m) => m,
            None => 0,
        }
    }

    fn wrapping_neg(self) -> (r: Self) {
        i32::wrapping_sub(0, self)
    }

    fn pow(self, exp: u32) -> (r: Self) {
        pow_i128(self as i128, exp) as i32
    }
}

impl Int for i64 {
    fn min_value() -> (r: Self) {
        i64::MIN
    }

    fn max_value() -> (r: Self) {
        i64::MAX
    }

    fn swap_bytes(self) -> (r: Self) {
        let k = Kind::I64;
        proof {
            lemma_range(k);
        }
        let p = to_pattern(k, self as i128);
        of_pattern(k, swap_pattern(p, k.bits_exec() / 8)) as i64
    }

    fn rotate_left(self, n: u32) -> (r: Self) {
        let k = Kind::I64;
        let b = k.bits_exec();
        proof {
            lemma_range(k);
        }
        let p = to_pattern(k, self as i128);
        of_pattern(k, rotate_pattern(p, b, n % b)) as i64
    }

    fn rotate_right(self, n: u32) -> (r: Self) {
        let k = Kind::I64;
        let b = k.bits_exec();
        proof {
            lemma_range(k);
        }
        let p = to_pattern(k, self as i128);
        of_pattern(k, rotate_pattern(p, b, b - n % b)) as i64
    }

    fn wrapping_shl(self, rhs: u32) -> (r: Self) {
        let k = Kind::I64;
        proof {
            lemma_range(k);
        }
        shl_value(k, self as i128, rhs % k.bits_exec()) as i64
    }

    fn wrapping_shr(self, rhs: u32) -> (r: Self) {
        let k = Kind::I64;
        proof {
            lemma_range(k);
        }
        shr_value(k, self as i128, rhs % k.bits_exec()) as i64
    }

    fn from_str_radix(src: &str, radix: u32) -> (r: Result<Self, ParseIntError>) {
        parse_i64(src, radix)
    }

    fn count_ones(self) -> (r: u32) {
        let p: u64 = if self < 0 {
            (self as i128 + (i64::MAX as i128 - i64::MIN as i128 + 1)) as u64
        } else {
            self as u64
        };
        popcount_u64(p)
    }

    fn count_zeros(self) -> (r: u32) {
        let p: u64 = if self < 0 {
            (self as i128 + (i64::MAX as i128 - i64::MIN as i128 + 1)) as u64
        } else {
            self as u64
        };
        proof {
            lemma2_to64();
            lemma_bit_len_le(p as nat, Self::kind().bits());
            lemma_popcount_le(p as nat);
        }
        64 - popcount_u64(p)
    }

    fn leading_zeros(self) -> (r: u32) {
        let p: u64 = if self < 0 {
            (self as i128 + (i64::MAX as i128 - i64::MIN as i128 + 1)) as u64
        } else {
            self as u64
        };
        proof {
            lemma2_to64();
            lemma_bit_len_le(p as nat, Self::kind().bits());
        }
        64 - bit_len_u64(p) as u32
    }

    fn trailing_zeros(self) -> (r: u32) {
        if self == 0 {
            return 64;
        }
        let p: u64 = if self < 0 {
            (self as i128 + (i64::MAX as i128 - i64::MIN as i128 + 1)) as u64
        } else {
            self as u64
        };
        trailing_u64(p)
    }

    fn checked_add(self, other: Self) -> (r: Option<Self>) {
        i64::checked_add(self, other)
    }

    fn checked_sub(self, other: Self) -> (r: Option<Self>) {
        i64::checked_sub(self, other)
    }

    fn checked_mul(self, other: Self) -> (r: Option<Self>) {
        i64::checked_mul(self, other)
    }

    fn checked_div(self, other: Self) -> (r: Option<Self>) {
        i64::checked_div(self, other)
    }

    fn saturating_add(self, other: Self) -> (r: Self) {
        let s = self as i128 + other as i128;
        if s > i64::MAX as i128 {
            i64::MAX
        } else if s < i64::MIN as i128 {
            i64::MIN
        } else {
            s as i64
        }
    }

    fn saturating_sub(self, other: Self) -> (r: Self) {
        let s = self as i128 - other as i128;
        if s > i64::MAX as i128 {
            i64::MAX
        } else if s < i64::MIN as i128 {
            i64::MIN
        } else {
            s as i64
        }
    }

    fn wrapping_add(self, rhs: Self) -> (r: Self) {
        i64::wrapping_add(self, rhs)
    }

    fn wrapping_sub(self, rhs: Self) -> (r: Self) {
        i64::wrapping_sub(self, rhs)
    }

    fn wrapping_mul(self, rhs: Self) -> (r: Self) {
        i64::wrapping_mul(self, rhs)
    }

    fn wrapping_div(self, rhs: Self) -> (r: Self) {
        proof {
            let a = self as int;
            let b = rhs as int;
            lemma_div_nonincreasing(if a < 0 { -a } else { a }, if b < 0 { -b } else { b });
        }
        match i64::checked_div(self, rhs) {
            Some(q) => q,
            None => i64::MIN,
        }
    }

    fn wrapping_rem(self, rhs: Self) -> (r: Self) {
        proof {
            let a = self as int;
            let b = rhs as int;
            let d = if b < 0 { -b } else { b };
            lemma_mod_pos_bound(if a < 0 { -a } else { a }, d);
            lemma_small_mod(0, d as nat);
        }
        match i64::checked_rem(self, rhs) {
            Some(m) => m,
            None => 0,
        }
    }

    fn wrapping_neg(self) -> (r: Self) {
        i64::wrapping_sub(0, self)
    }

    fn pow(self, exp: u32) -> (r: Self) {
        pow_i128(self as i128, exp) as i64
    }
}

impl Int for isize {
    fn min_value() -> (r: Self) {
        isize::MIN
    }

    fn max_value() -> (r: Self) {
        isize::MAX
    }

    fn swap_bytes(self) -> (r: Self) {
        let k = Kind::Isize;
        proof {
            lemma_range(k);
        }
        let p = to_pattern(k, self as i128);
        of_pattern(k, swap_pattern(p, k.bits_exec() / 8)) as isize
    }

    fn rotate_left(self, n: u32) -> (r: Self) {
        let k = Kind::Isize;
        let b = k.bits_exec();
        proof {
            lemma_range(k);
        }
        let p = to_pattern(k, self as i128);
        of_pattern(k, rotate_pattern(p, b, n % b)) as isize
    }

    fn rotate_right(self, n: u32) -> (r: Self) {
        let k = Kind::Isize;
        let b = k.bits_exec();
        proof {
            lemma_range(k);
        }
        let p = to_pattern(k, self as i128);
        of_pattern(k, rotate_pattern(p, b, b - n % b)) as isize
    }

    fn wrapping_shl(self, rhs: u32) -> (r: Self) {
        let k = Kind::Isize;
        proof {
            lemma_range(k);
        }
        shl_value(k, self as i128, rhs % k.bits_exec()) as isize
    }

    fn wrapping_shr(self, rhs: u32) -> (r: Self) {
        let k = Kind::Isize;
        proof {
            lemma_range(k);
        }
        shr_value(k, self as i128, rhs % k.bits_exec()) as isize
    }

    fn from_str_radix(src: &str, radix: u32) -> (r: Result<Self, ParseIntError>) {
        parse_isize(src, radix)
    }

    fn count_ones(self) -> (r: u32) {
        let p: u64 = if self < 0 {
            (self as i128 + (isize::MAX as i128 - isize::MIN as i128 + 1)) as u64
        } else {
            self as u64
        };
        popcount_u64(p)
    }

    fn count_zeros(self) -> (r: u32) {
        let p: u64 = if self < 0 {
            (self as i128 + (isize::MAX as i128 - isize::MIN as i128 + 1)) as u64
        } else {
            self as u64
        };
        proof {
            lemma2_to64();
            lemma_bit_len_le(p as nat, Self::kind().bits());
            lemma_popcount_le(p as nat);
        }
        isize::BITS - popcount_u64(p)
    }

    fn leading_zeros(self) -> (r: u32) {
        let p: u64 = if self < 0 {
            (self as i128 + (isize::MAX as i128 - isize::MIN as i128 + 1)) as u64
        } else {
            self as u64
        };
        proof {
            lemma2_to64();
            lemma_bit_len_le(p as nat, Self::kind().bits());
        }
        isize::BITS - bit_len_u64(p) as u32
    }

    fn trailing_zeros(self) -> (r: u32) {
        if self == 0 {
            return isize::BITS;
        }
        let p: u64 = if self < 0 {
            (self as i128 + (isize::MAX as i128 - isize::MIN as i128 + 1)) as u64
        } else {
            self as u64
        };
        trailing_u64(p)
    }

    fn checked_add(self, other: Self) -> (r: Option<Self>) {
        isize::checked_add(self, other)
    }

    fn checked_sub(self, other: Self) -> (r: Option<Self>) {
        isize::checked_sub(self, other)
    }

    fn checked_mul(self, other: Self) -> (r: Option<Self>) {
        isize::checked_mul(self, other)
    }

    fn checked_div(self, other: Self) -> (r: Option<Self>) {
        isize::checked_div(self, other)
    }

    fn saturating_add(self, other: Self) -> (r: Self) {
        let s = self as i128 + other as i128;
        if s > isize::MAX as i128 {
            isize::MAX
        } else if s < isize::MIN as i128 {
            isize::MIN
        } else {
            s as isize
        }
    }

    fn saturating_sub(self, other: Self) -> (r: Self) {
        let s = self as i128 - other as i128;
        if s > isize::MAX as i128 {
            isize::MAX
        } else if s < isize::MIN as i128 {
            isize::MIN
        } else {
            s as isize
        }
    }

    fn wrapping_add(self, rhs: Self) -> (r: Self) {
        isize::wrapping_add(self, rhs)
    }

    fn wrapping_sub(self, rhs: Self) -> (r: Self) {
        isize::wrapping_sub(self, rhs)
    }

    fn wrapping_mul(self, rhs: Self) -> (r: Self) {
        isize::wrapping_mul(self, rhs)
    }

    fn wrapping_div(self, rhs: Self) -> (r: Self) {
        proof {
            let a = self as int;
            let b = rhs as int;
            lemma_div_nonincreasing(if a < 0 { -a } else { a }, if b < 0 { -b } else { b });
        }
        match isize::checked_div(self, rhs) {
            Some(q) => q,
            None => isize::MIN,
        }
    }

    fn wrapping_rem(self, rhs: Self) -> (r: Self) {
        proof {
            let a = self as int;
            let b = rhs as int;
            let d = if b < 0 { -b } else { b };
            lemma_mod_pos_bound(if a < 0 { -a } else { a }, d);
            lemma_small_mod(0, d as nat);
        }
        match isize::checked_rem(self, rhs) {
            Some(m) => m,
            None => 0,
        }
    }

    fn wrapping_neg(self) -> (r: Self) {
        isize::wrapping_sub(0, self)
    }

    fn pow(self, exp: u32) -> (r: Self) {
        pow_i128(self as i128, exp) as isize
    }
}

impl Int for u8 {
    fn min_value() -> (r: Self) {
        u8::MIN
    }

    fn max_value() -> (r: Self) {
        u8::MAX
    }

    fn swap_bytes(self) -> (r: Self) {
        let k = Kind::U8;
        proof {
            lemma_range(k);
        }
        let p = to_pattern(k, self as i128);
        of_pattern(k, swap_pattern(p, k.bits_exec() / 8)) as u8
    }

    fn rotate_left(self, n: u32) -> (r: Self) {
        let k = Kind::U8;
        let b = k.bits_exec();
        proof {
            lemma_range(k);
        }
        let p = to_pattern(k, self as i128);
        of_pattern(k, rotate_pattern(p, b, n % b)) as u8
    }

    fn rotate_right(self, n: u32) -> (r: Self) {
        let k = Kind::U8;
        let b = k.bits_exec();
        proof {
            lemma_range(k);
        }
        let p = to_pattern(k, self as i128);
        of_pattern(k, rotate_pattern(p, b, b - n % b)) as u8
    }

    fn wrapping_shl(self, rhs: u32) -> (r: Self) {
        let k = Kind::U8;
        proof {
            lemma_range(k);
        }
        shl_value(k, self as i128, rhs % k.bits_exec()) as u8
    }

    fn wrapping_shr(self, rhs: u32) -> (r: Self) {
        let k = Kind::U8;
        proof {
            lemma_range(k);
        }
        shr_value(k, self as i128, rhs % k.bits_exec()) as u8
    }

    fn from_str_radix(src: &str, radix: u32) -> (r: Result<Self, ParseIntError>) {
        parse_u8(src, radix)
    }

    fn count_ones(self) -> (r: u32) {
        let p: u64 = self as u64;
        popcount_u64(p)
    }

    fn count_zeros(self) -> (r: u32) {
        let p: u64 = self as u64;
        proof {
            lemma2_to64();
            lemma_bit_len_le(p as nat, Self::kind().bits());
            lemma_popcount_le(p as nat);
        }
        8 - popcount_u64(p)
    }

    fn leading_zeros(self) -> (r: u32) {
        let p: u64 = self as u64;
        proof {
            lemma2_to64();
            lemma_bit_len_le(p as nat, Self::kind().bits());
        }
        8 - bit_len_u64(p) as u32
    }

    fn trailing_zeros(self) -> (r: u32) {
        if self == 0 {
            return 8;
        }
        let p: u64 = self as u64;
        trailing_u64(p)
    }

    fn checked_add(self, other: Self) -> (r: Option<Self>) {
        u8::checked_add(self, other)
    }

    fn checked_sub(self, other: Self) -> (r: Option<Self>) {
        u8::checked_sub(self, other)
    }

    fn checked_mul(self, other: Self) -> (r: Option<Self>) {
        u8::checked_mul(self, other)
    }

    fn checked_div(self, other: Self) -> (r: Option<Self>) {
        u8::checked_div(self, other)
    }

    fn saturating_add(self, other: Self) -> (r: Self) {
        let s = self as i128 + other as i128;
        if s > u8::MAX as i128 {
            u8::MAX
        } else if s < u8::MIN as i128 {
            u8::MIN
        } else {
            s as u8
        }
    }

    fn saturating_sub(self, other: Self) -> (r: Self) {
        let s = self as i128 - other as i128;
        if s > u8::MAX as i128 {
            u8::MAX
        } else if s < u8::MIN as i128 {
            u8::MIN
        } else {
            s as u8
        }
    }

    fn wrapping_add(self, rhs: Self) -> (r: Self) {
        u8::wrapping_add(self, rhs)
    }

    fn wrapping_sub(self, rhs: Self) -> (r: Self) {
        u8::wrapping_sub(self, rhs)
    }

    fn wrapping_mul(self, rhs: Self) -> (r: Self) {
        u8::wrapping_mul(self, rhs)
    }

    fn wrapping_div(self, rhs: Self) -> (r: Self) {
        proof {
            let a = self as int;
            let b = rhs as int;
            lemma_div_nonincreasing(if a < 0 { -a } else { a }, if b < 0 { -b } else { b });
        }
        match u8::checked_div(self, rhs) {
            Some(q) => q,
            None => u8::MIN,
        }
    }

    fn wrapping_rem(self, rhs: Self) -> (r: Self) {
        proof {
            let a = self as int;
            let b = rhs as int;
            let d = if b < 0 { -b } else { b };
            lemma_mod_pos_bound(if a < 0 { -a } else { a }, d);
            lemma_small_mod(0, d as nat);
        }
        match u8::checked_rem(self, rhs) {
            Some(m) => m,
            None => 0,
        }
    }

    fn wrapping_neg(self) -> (r: Self) {
        u8::wrapping_sub(0, self)
    }

    fn pow(self, exp: u32) -> (r: Self) {
        pow_i128(self as i128, exp) as u8
    }
}

impl Int for u16 {
    fn min_value() -> (r: Self) {
        u16::MIN
    }

    fn max_value() -> (r: Self) {
        u16::MAX
    }

    fn swap_bytes(self) -> (r: Self) {
        let k = Kind::U16;
        proof {
            lemma_range(k);
        }
        let p = to_pattern(k, self as i128);
        of_pattern(k, swap_pattern(p, k.bits_exec() / 8)) as u16
    }

    fn rotate_left(self, n: u32) -> (r: Self) {
        let k = Kind::U16;
        let b = k.bits_exec();
        proof {
            lemma_range(k);
        }
        let p = to_pattern(k, self as i128);
        of_pattern(k, rotate_pattern(p, b, n % b)) as u16
    }

    fn rotate_right(self, n: u32) -> (r: Self) {
        let k = Kind::U16;
        let b = k.bits_exec();
        proof {
            lemma_range(k);
        }
        let p = to_pattern(k, self as i128);
        of_pattern(k, rotate_pattern(p, b, b - n % b)) as u16
    }

    fn wrapping_shl(self, rhs: u32) -> (r: Self) {
        let k = Kind::U16;
        proof {
            lemma_range(k);
        }
        shl_value(k, self as i128, rhs % k.bits_exec()) as u16
    }

    fn wrapping_shr(self, rhs: u32) -> (r: Self) {
        let k = Kind::U16;
        proof {
            lemma_range(k);
        }
        shr_value(k, self as i128, rhs % k.bits_exec()) as u16
    }

    fn from_str_radix(src: &str, radix: u32) -> (r: Result<Self, ParseIntError>) {
        parse_u16(src, radix)
    }

    fn count_ones(self) -> (r: u32) {
        let p: u64 = self as u64;
        popcount_u64(p)
    }

    fn count_zeros(self) -> (r: u32) {
        let p: u64 = self as u64;
        proof {
            lemma2_to64();
            lemma_bit_len_le(p as nat, Self::kind().bits());
            lemma_popcount_le(p as nat);
        }
        16 - popcount_u64(p)
    }

    fn leading_zeros(self) -> (r: u32) {
        let p: u64 = self as u64;
        proof {
            lemma2_to64();
            lemma_bit_len_le(p as nat, Self::kind().bits());
        }
        16 - bit_len_u64(p) as u32
    }

    fn trailing_zeros(self) -> (r: u32) {
        if self == 0 {
            return 16;
        }
        let p: u64 = self as u64;
        trailing_u64(p)
    }

    fn checked_add(self, other: Self) -> (r: Option<Self>) {
        u16::checked_add(self, other)
    }

    fn checked_sub(self, other: Self) -> (r: Option<Self>) {
        u16::checked_sub(self, other)
    }

    fn checked_mul(self, other: Self) -> (r: Option<Self>) {
        u16::checked_mul(self, other)
    }

    fn checked_div(self, other: Self) -> (r: Option<Self>) {
        u16::checked_div(self, other)
    }

    fn saturating_add(self, other: Self) -> (r: Self) {
        let s = self as i128 + other as i128;
        if s > u16::MAX as i128 {
            u16::MAX
        } else if s < u16::MIN as i128 {
            u16::MIN
        } else {
            s as u16
        }
    }

    fn saturating_sub(self, other: Self) -> (r: Self) {
        let s = self as i128 - other as i128;
        if s > u16::MAX as i128 {
            u16::MAX
        } else if s < u16::MIN as i128 {
            u16::MIN
        } else {
            s as u16
        }
    }

    fn wrapping_add(self, rhs: Self) -> (r: Self) {
        u16::wrapping_add(self, rhs)
    }

    fn wrapping_sub(self, rhs: Self) -> (r: Self) {
        u16::wrapping_sub(self, rhs)
    }

    fn wrapping_mul(self, rhs: Self) -> (r: Self) {
        u16::wrapping_mul(self, rhs)
    }

    fn wrapping_div(self, rhs: Self) -> (r: Self) {
        proof {
            let a = self as int;
            let b = rhs as int;
            lemma_div_nonincreasing(if a < 0 { -a } else { a }, if b < 0 { -b } else { b });
        }
        match u16::checked_div(self, rhs) {
            Some(q) => q,
            None => u16::MIN,
        }
    }

    fn wrapping_rem(self, rhs: Self) -> (r: Self) {
        proof {
            let a = self as int;
            let b = rhs as int;
            let d = if b < 0 { -b } else { b };
            lemma_mod_pos_bound(if a < 0 { -a } else { a }, d);
            lemma_small_mod(0, d as nat);
        }
        match u16::checked_rem(self, rhs) {
            Some(m) => m,
            None => 0,
        }
    }

    fn wrapping_neg(self) -> (r: Self) {
        u16::wrapping_sub(0, self)
    }

    fn pow(self, exp: u32) -> (r: Self) {
        pow_i128(self as i128, exp) as u16
    }
}

impl Int for u32 {
    fn min_value() -> (r: Self) {
        u32::MIN
    }

    fn max_value() -> (r: Self) {
        u32::MAX
    }

    fn swap_bytes(self) -> (r: Self) {
        let k = Kind::U32;
        proof {
            lemma_range(k);
        }
        let p = to_pattern(k, self as i128);
        of_pattern(k, swap_pattern(p, k.bits_exec() / 8)) as u32
    }

    fn rotate_left(self, n: u32) -> (r: Self) {
        let k = Kind::U32;
        let b = k.bits_exec();
        proof {
            lemma_range(k);
        }
        let p = to_pattern(k, self as i128);
        of_pattern(k, rotate_pattern(p, b, n % b)) as u32
    }

    fn rotate_right(self, n: u32) -> (r: Self) {
        let k = Kind::U32;
        let b = k.bits_exec();
        proof {
            lemma_range(k);
        }
        let p = to_pattern(k, self as i128);
        of_pattern(k, rotate_pattern(p, b, b - n % b)) as u32
    }

    fn wrapping_shl(self, rhs: u32) -> (r: Self) {
        let k = Kind::U32;
        proof {
            lemma_range(k);
        }
        shl_value(k, self as i128, rhs % k.bits_exec()) as u32
    }

    fn wrapping_shr(self, rhs: u32) -> (r: Self) {
        let k = Kind::U32;
        proof {
            lemma_range(k);
        }
        shr_value(k, self as i128, rhs % k.bits_exec()) as u32
    }

    fn from_str_radix(src: &str, radix: u32) -> (r: Result<Self, ParseIntError>) {
        parse_u32(src, radix)
    }

    fn count_ones(self) -> (r: u32) {
        let p: u64 = self as u64;
        popcount_u64(p)
    }

    fn count_zeros(self) -> (r: u32) {
        let p: u64 = self as u64;
        proof {
            lemma2_to64();
            lemma_bit_len_le(p as nat, Self::kind().bits());
            lemma_popcount_le(p as nat);
        }
        32 - popcount_u64(p)
    }

    fn leading_zeros(self) -> (r: u32) {
        let p: u64 = self as u64;
        proof {
            lemma2_to64();
            lemma_bit_len_le(p as nat, Self::kind().bits());
        }
        32 - bit_len_u64(p) as u32
    }

    fn trailing_zeros(self) -> (r: u32) {
        if self == 0 {
            return 32;
        }
        let p: u64 = self as u64;
        trailing_u64(p)
    }

    fn checked_add(self, other: Self) -> (r: Option<Self>) {
        u32::checked_add(self, other)
    }

    fn checked_sub(self, other: Self) -> (r: Option<Self>) {
        u32::checked_sub(self, other)
    }

    fn checked_mul(self, other: Self) -> (r: Option<Self>) {
        u32::checked_mul(self, other)
    }

    fn checked_div(self, other: Self) -> (r: Option<Self>) {
        u32::checked_div(self, other)
    }

    fn saturating_add(self, other: Self) -> (r: Self) {
        let s = self as i128 + other as i128;
        if s > u32::MAX as i128 {
            u32::MAX
        } else if s < u32::MIN as i128 {
            u32::MIN
        } else {
            s as u32
        }
    }

    fn saturating_sub(self, other: Self) -> (r: Self) {
        let s = self as i128 - other as i128;
        if s > u32::MAX as i128 {
            u32::MAX
        } else if s < u32::MIN as i128 {
            u32::MIN
        } else {
            s as u32
        }
    }

    fn wrapping_add(self, rhs: Self) -> (r: Self) {
        u32::wrapping_add(self, rhs)
    }

    fn wrapping_sub(self, rhs: Self) -> (r: Self) {
        u32::wrapping_sub(self, rhs)
    }

    fn wrapping_mul(self, rhs: Self) -> (r: Self) {
        u32::wrapping_mul(self, rhs)
    }

    fn wrapping_div(self, rhs: Self) -> (r: Self) {
        proof {
            let a = self as int;
            let b = rhs as int;
            lemma_div_nonincreasing(if a < 0 { -a } else { a }, if b < 0 { -b } else { b });
        }
        match u32::checked_div(self, rhs) {
            Some(q) => q,
            None => u32::MIN,
        }
    }

    fn wrapping_rem(self, rhs: Self) -> (r: Self) {
        proof {
            let a = self as int;
            let b = rhs as int;
            let d = if b < 0 { -b } else { b };
            lemma_mod_pos_bound(if a < 0 { -a } else { a }, d);
            lemma_small_mod(0, d as nat);
        }
        match u32::checked_rem(self, rhs) {
            Some(m) => m,
            None => 0,
        }
    }

    fn wrapping_neg(self) -> (r: Self) {
        u32::wrapping_sub(0, self)
    }

    fn pow(self, exp: u32) -> (r: Self) {
        pow_i128(self as i128, exp) as u32
    }
}

impl Int for u64 {
    fn min_value() -> (r: Self) {
        u64::MIN
    }

    fn max_value() -> (r: Self) {
        u64::MAX
    }

    fn swap_bytes(self) -> (r: Self) {
        let k = Kind::U64;
        proof {
            lemma_range(k);
        }
        let p = to_pattern(k, self as i128);
        of_pattern(k, swap_pattern(p, k.bits_exec() / 8)) as u64
    }

    fn rotate_left(self, n: u32) -> (r: Self) {
        let k = Kind::U64;
        let b = k.bits_exec();
        proof {
            lemma_range(k);
        }
        let p = to_pattern(k, self as i128);
        of_pattern(k, rotate_pattern(p, b, n % b)) as u64
    }

    fn rotate_right(self, n: u32) -> (r: Self) {
        let k = Kind::U64;
        let b = k.bits_exec();
        proof {
            lemma_range(k);
        }
        let p = to_pattern(k, self as i128);
        of_pattern(k, rotate_pattern(p, b, b - n % b)) as u64
    }

    fn wrapping_shl(self, rhs: u32) -> (r: Self) {
        let k = Kind::U64;
        proof {
            lemma_range(k);
        }
        shl_value(k, self as i128, rhs % k.bits_exec()) as u64
    }

    fn wrapping_shr(self, rhs: u32) -> (r: Self) {
        let k = Kind::U64;
        proof {
            lemma_range(k);
        }
        shr_value(k, self as i128, rhs % k.bits_exec()) as u64
    }

    fn from_str_radix(src: &str, radix: u32) -> (r: Result<Self, ParseIntError>) {
        parse_u64(src, radix)
    }

    fn count_ones(self) -> (r: u32) {
        let p: u64 = self as u64;
        popcount_u64(p)
    }

    fn count_zeros(self) -> (r: u32) {
        let p: u64 = self as u64;
        proof {
            lemma2_to64();
            lemma_bit_len_le(p as nat, Self::kind().bits());
            lemma_popcount_le(p as nat);
        }
        64 - popcount_u64(p)
    }

    fn leading_zeros(self) -> (r: u32) {
        let p: u64 = self as u64;
        proof {
            lemma2_to64();
            lemma_bit_len_le(p as nat, Self::kind().bits());
        }
        64 - bit_len_u64(p) as u32
    }

    fn trailing_zeros(self) -> (r: u32) {
        if self == 0 {
            return 64;
        }
        let p: u64 = self as u64;
        trailing_u64(p)
    }

    fn checked_add(self, other: Self) -> (r: Option<Self>) {
        u64::checked_add(self, other)
    }

    fn checked_sub(self, other: Self) -> (r: Option<Self>) {
        u64::checked_sub(self, other)
    }

    fn checked_mul(self, other: Self) -> (r: Option<Self>) {
        u64::checked_mul(self, other)
    }

    fn checked_div(self, other: Self) -> (r: Option<Self>) {
        u64::checked_div(self, other)
    }

    fn saturating_add(self, other: Self) -> (r: Self) {
        let s = self as i128 + other as i128;
        if s > u64::MAX as i128 {
            u64::MAX
        } else if s < u64::MIN as i128 {
            u64::MIN
        } else {
            s as u64
        }
    }

    fn saturating_sub(self, other: Self) -> (r: Self) {
        let s = self as i128 - other as i128;
        if s > u64::MAX as i128 {
            u64::MAX
        } else if s < u64::MIN as i128 {
            u64::MIN
        } else {
            s as u64
        }
    }

    fn wrapping_add(self, rhs: Self) -> (r: Self) {
        u64::wrapping_add(self, rhs)
    }

    fn wrapping_sub(self, rhs: Self) -> (r: Self) {
        u64::wrapping_sub(self, rhs)
    }

    fn wrapping_mul(self, rhs: Self) -> (r: Self) {
        u64::wrapping_mul(self, rhs)
    }

    fn wrapping_div(self, rhs: Self) -> (r: Self) {
        proof {
            let a = self as int;
            let b = rhs as int;
            lemma_div_nonincreasing(if a < 0 { -a } else { a }, if b < 0 { -b } else { b });
        }
        match u64::checked_div(self, rhs) {
            Some(q) => q,
            None => u64::MIN,
        }
    }

    fn wrapping_rem(self, rhs: Self) -> (r: Self) {
        proof {
            let a = self as int;
            let b = rhs as int;
            let d = if b < 0 { -b } else { b };
            lemma_mod_pos_bound(if a < 0 { -a } else { a }, d);
            lemma_small_mod(0, d as nat);
        }
        match u64::checked_rem(self, rhs) {
            Some(m) => m,
            None => 0,
        }
    }

    fn wrapping_neg(self) -> (r: Self) {
        u64::wrapping_sub(0, self)
    }

    fn pow(self, exp: u32) -> (r: Self) {
        pow_i128(self as i128, exp) as u64
    }
}

impl Int for usize {
    fn min_value() -> (r: Self) {
        usize::MIN
    }

    fn max_value() -> (r: Self) {
        usize::MAX
    }

    fn swap_bytes(self) -> (r: Self) {
        let k = Kind::Usize;
        proof {
            lemma_range(k);
        }
        let p = to_pattern(k, self as i128);
        of_pattern(k, swap_pattern(p, k.bits_exec() / 8)) as usize
    }

    fn rotate_left(self, n: u32) -> (r: Self) {
        let k = Kind::Usize;
        let b = k.bits_exec();
        proof {
            lemma_range(k);
        }
        let p = to_pattern(k, self as i128);
        of_pattern(k, rotate_pattern(p, b, n % b)) as usize
    }

    fn rotate_right(self, n: u32) -> (r: Self) {
        let k = Kind::Usize;
        let b = k.bits_exec();
        proof {
            lemma_range(k);
        }
        let p = to_pattern(k, self as i128);
        of_pattern(k, rotate_pattern(p, b, b - n % b)) as usize
    }

    fn wrapping_shl(self, rhs: u32) -> (r: Self) {
        let k = Kind::Usize;
        proof {
            lemma_range(k);
        }
        shl_value(k, self as i128, rhs % k.bits_exec()) as usize
    }

    fn wrapping_shr(self, rhs: u32) -> (r: Self) {
        let k = Kind::Usize;
        proof {
            lemma_range(k);
        }
        shr_value(k, self as i128, rhs % k.bits_exec()) as usize
    }

    fn from_str_radix(src: &str, radix: u32) -> (r: Result<Self, ParseIntError>) {
        parse_usize(src, radix)
    }

    fn count_ones(self) -> (r: u32) {
        let p: u64 = self as u64;
        popcount_u64(p)
    }

    fn count_zeros(self) -> (r: u32) {
        let p: u64 = self as u64;
        proof {
            lemma2_to64();
            lemma_bit_len_le(p as nat, Self::kind().bits());
            lemma_popcount_le(p as nat);
        }
        usize::BITS - popcount_u64(p)
    }

    fn leading_zeros(self) -> (r: u32) {
        let p: u64 = self as u64;
        proof {
            lemma2_to64();
            lemma_bit_len_le(p as nat, Self::kind().bits());
        }
        usize::BITS - bit_len_u64(p) as u32
    }

    fn trailing_zeros(self) -> (r: u32) {
        if self == 0 {
            return usize::BITS;
        }
        let p: u64 = self as u64;
        trailing_u64(p)
    }

    fn checked_add(self, other: Self) -> (r: Option<Self>) {
        usize::checked_add(self, other)
    }

    fn checked_sub(self, other: Self) -> (r: Option<Self>) {
        usize::checked_sub(self, other)
    }

    fn checked_mul(self, other: Self) -> (r: Option<Self>) {
        usize::checked_mul(self, other)
    }

    fn checked_div(self, other: Self) -> (r: Option<Self>) {
        usize::checked_div(self, other)
    }

    fn saturating_add(self, other: Self) -> (r: Self) {
        let s = self as i128 + other as i128;
        if s > usize::MAX as i128 {
            usize::MAX
        } else if s < usize::MIN as i128 {
            usize::MIN
        } else {
            s as usize
        }
    }

    fn saturating_sub(self, other: Self) -> (r: Self) {
        let s = self as i128 - other as i128;
        if s > usize::MAX as i128 {
            usize::MAX
        } else if s < usize::MIN as i128 {
            usize::MIN
        } else {
            s as usize
        }
    }

    fn wrapping_add(self, rhs: Self) -> (r: Self) {
        usize::wrapping_add(self, rhs)
    }

    fn wrapping_sub(self, rhs: Self) -> (r: Self) {
        usize::wrapping_sub(self, rhs)
    }

    fn wrapping_mul(self, rhs: Self) -> (r: Self) {
        usize::wrapping_mul(self, rhs)
    }

    fn wrapping_div(self, rhs: Self) -> (r: Self) {
        proof {
            let a = self as int;
            let b = rhs as int;
            lemma_div_nonincreasing(if a < 0 { -a } else { a }, if b < 0 { -b } else { b });
        }
        match usize::checked_div(self, rhs) {
            Some(q) => q,
            None => usize::MIN,
        }
    }

    fn wrapping_rem(self, rhs: Self) -> (r: Self) {
        proof {
            let a = self as int;
            let b = rhs as int;
            let d = if b < 0 { -b } else { b };
            lemma_mod_pos_bound(if a < 0 { -a } else { a }, d);
            lemma_small_mod(0, d as nat);
        }
        match usize::checked_rem(self, rhs) {
            Some(m) => m,
            None => 0,
        }
    }

    fn wrapping_neg(self) -> (r: Self) {
        usize::wrapping_sub(0, self)
    }

    fn pow(self, exp: u32) -> (r: Self) {
        pow_i128(self as i128, exp) as usize
    }
}

impl UnsignedInt for u8 {
    fn is_power_of_two(self) -> (r: bool) {
        is_power_of_two_u64(self as u64)
    }

    fn next_power_of_two(self) -> (r: Self) {
        checked_next_power_of_two_u64(self as u64, u8::MAX as u64).unwrap() as u8
    }

    fn checked_next_power_of_two(self) -> (r: Option<Self>) {
        match checked_next_power_of_two_u64(self as u64, u8::MAX as u64) {
            Some(p) => Some(p as u8),
            None => None,
        }
    }
}

impl UnsignedInt for u16 {
    fn is_power_of_two(self) -> (r: bool) {
        is_power_of_two_u64(self as u64)
    }

    fn next_power_of_two(self) -> (r: Self) {
        checked_next_power_of_two_u64(self as u64, u16::MAX as u64).unwrap() as u16
    }

    fn checked_next_power_of_two(self) -> (r: Option<Self>) {
        match checked_next_power_of_two_u64(self as u64, u16::MAX as u64) {
            Some(p) => Some(p as u16),
            None => None,
        }
    }
}

impl UnsignedInt for u32 {
    fn is_power_of_two(self) -> (r: bool) {
        is_power_of_two_u64(self as u64)
    }

    fn next_power_of_two(self) -> (r: Self) {
        checked_next_power_of_two_u64(self as u64, u32::MAX as u64).unwrap() as u32
    }

    fn checked_next_power_of_two(self) -> (r: Option<Self>) {
        match checked_next_power_of_two_u64(self as u64, u32::MAX as u64) {
            Some(p) => Some(p as u32),
            None => None,
        }
    }
}

impl UnsignedInt for u64 {
    fn is_power_of_two(self) -> (r: bool) {
        is_power_of_two_u64(self as u64)
    }

    fn next_power_of_two(self) -> (r: Self) {
        checked_next_power_of_two_u64(self as u64, u64::MAX as u64).unwrap() as u64
    }

    fn checked_next_power_of_two(self) -> (r: Option<Self>) {
        match checked_next_power_of_two_u64(self as u64, u64::MAX as u64) {
            Some(p) => Some(p as u64),
            None => None,
        }
    }
}

impl UnsignedInt for usize {
    fn is_power_of_two(self) -> (r: bool) {
        is_power_of_two_u64(self as u64)
    }

    fn next_power_of_two(self) -> (r: Self) {
        checked_next_power_of_two_u64(self as u64, usize::MAX as u64).unwrap() as usize
    }

    fn checked_next_power_of_two(self) -> (r: Option<Self>) {
        match checked_next_power_of_two_u64(self as u64, usize::MAX as u64) {
            Some(p) => Some(p as usize),
            None => None,
        }
    }
}

} // verus!
