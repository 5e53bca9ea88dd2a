//! IEEE-754 binary32 and binary64 numbers, held as their bit patterns.
use crate::kind::Kind;
use vstd::arithmetic::div_mod::{
    lemma_div_nonincreasing, lemma_fundamental_div_mod, lemma_fundamental_div_mod_converse,
    lemma_div_is_ordered, lemma_div_multiples_vanish, lemma_mod_add_multiples_vanish,
    lemma_multiply_divide_le,
    lemma_multiply_divide_lt, lemma_small_mod,
};
use vstd::arithmetic::mul::{
    lemma_mul_basics, lemma_mul_inequality, lemma_mul_strict_inequality,
};
use vstd::arithmetic::power2::{
    lemma2_to64, lemma2_to64_rest, lemma_pow2_adds, lemma_pow2_pos, lemma_pow2_strictly_increases,
    lemma_pow2_unfold,
    pow2,
};
use vstd::bits::{lemma_u64_pow2_no_overflow, lemma_u64_shl_is_mul};
use vstd::prelude::*;

verus! {

/// Significant bits of a float kind, the hidden leading bit included.
pub open spec fn precision(k: Kind) -> nat {
    if k == Kind::F32 {
        24
    } else {
        53
    }
}

/// Bits of the stored fraction.
pub open spec fn frac_bits(k: Kind) -> nat {
    (precision(k) - 1) as nat
}

/// Exponent bias.
pub open spec fn bias(k: Kind) -> int {
    if k == Kind::F32 {
        127
    } else {
        1023
    }
}

/// The exponent field of infinities and NaNs.
pub open spec fn exp_all_ones(k: Kind) -> nat {
    if k == Kind::F32 {
        255
    } else {
        2047
    }
}

/// The sign bit, as a number.
pub open spec fn sign_bit(k: Kind) -> nat {
    pow2((k.bits() - 1) as nat)
}

/// Exponent of the last place of a subnormal number.
pub open spec fn min_scale(k: Kind) -> int {
    1 - bias(k) - frac_bits(k)
}

pub open spec fn is_neg_bits(k: Kind, b: nat) -> bool {
    b >= sign_bit(k)
}

pub open spec fn exp_field(k: Kind, b: nat) -> nat {
    (b % sign_bit(k)) / pow2(frac_bits(k))
}

pub open spec fn frac_field(k: Kind, b: nat) -> nat {
    b % pow2(frac_bits(k))
}

pub open spec fn is_nan_bits(k: Kind, b: nat) -> bool {
    exp_field(k, b) == exp_all_ones(k) && frac_field(k, b) != 0
}

pub open spec fn is_inf_bits(k: Kind, b: nat) -> bool {
    exp_field(k, b) == exp_all_ones(k) && frac_field(k, b) == 0
}

pub open spec fn is_finite_bits(k: Kind, b: nat) -> bool {
    exp_field(k, b) != exp_all_ones(k)
}

/// The integer significand of a finite number: its magnitude is
/// `significand * 2^scale`.
pub open spec fn significand(k: Kind, b: nat) -> nat {
    if exp_field(k, b) == 0 {
        frac_field(k, b)
    } else {
        frac_field(k, b) + pow2(frac_bits(k))
    }
}

pub open spec fn scale(k: Kind, b: nat) -> int {
    if exp_field(k, b) == 0 {
        min_scale(k)
    } else {
        exp_field(k, b) + min_scale(k) - 1
    }
}

/// Whether `sig * 2^sc <= bound`, compared exactly.
pub open spec fn le_bound(sig: nat, sc: int, bound: int) -> bool {
    if sc >= 0 {
        sig * pow2(sc as nat) <= bound
    } else {
        sig <= bound * pow2((-sc) as nat)
    }
}

/// The integer part of `sig * 2^sc`.
pub open spec fn trunc_mag(sig: nat, sc: int) -> nat {
    if sc >= 0 {
        sig * pow2(sc as nat)
    } else {
        sig / pow2((-sc) as nat)
    }
}

/// Number of binary digits of `n`.
pub open spec fn bit_len(n: nat) -> nat
    decreases n,
{
    if n == 0 {
        0
    } else {
        1 + bit_len(n / 2)
    }
}

/// `m / 2^s`, rounded to the nearest integer, ties to even.
pub open spec fn round_shift(m: nat, s: nat) -> nat {
    if s == 0 {
        m
    } else {
        let q = m / pow2(s);
        let r = m % pow2(s);
        let h = pow2((s - 1) as nat);
        if r > h || (r == h && q % 2 == 1) {
            q + 1
        } else {
            q
        }
    }
}

/// The magnitude `m` rounded to the precision of float kind `k`.
pub open spec fn round_mag(k: Kind, m: nat) -> nat {
    if bit_len(m) <= precision(k) {
        m
    } else {
        let s = (bit_len(m) - precision(k)) as nat;
        round_shift(m, s) * pow2(s)
    }
}

/// The integer `v` rounded to the precision of float kind `k`: the value of
/// `v` converted to that kind.
pub open spec fn round_int(k: Kind, v: int) -> int {
    if v >= 0 {
        round_mag(k, v as nat) as int
    } else {
        -(round_mag(k, (-v) as nat) as int)
    }
}

/// Bit pattern of an infinity.
pub open spec fn inf_bits(k: Kind, neg: bool) -> nat {
    (if neg {
        sign_bit(k)
    } else {
        0
    }) + exp_all_ones(k) * pow2(frac_bits(k))
}

/// Bit pattern of the number of kind `k` nearest to `(-1)^neg * mag * 2^e`,
/// ties to even; infinity where that lies beyond the finite range.
pub open spec fn encode(k: Kind, neg: bool, mag: nat, e: int) -> nat {
    let sbit: nat = if neg {
        sign_bit(k)
    } else {
        0
    };
    let top = pow2(frac_bits(k));
    if mag == 0 {
        sbit
    } else {
        let qe = if bit_len(mag) + e - precision(k) >= min_scale(k) {
            bit_len(mag) + e - precision(k)
        } else {
            min_scale(k)
        };
        let q = if e >= qe {
            mag * pow2((e - qe) as nat)
        } else {
            round_shift(mag, (qe - e) as nat)
        };
        let q2: nat = if q == pow2(precision(k)) {
            top
        } else {
            q
        };
        let qe2 = if q == pow2(precision(k)) {
            qe + 1
        } else {
            qe
        };
        if q2 < top {
            sbit + q2
        } else {
            let ef = qe2 - min_scale(k) + 1;
            if ef >= exp_all_ones(k) {
                inf_bits(k, neg)
            } else {
                (sbit + ef * top + (q2 - top)) as nat
            }
        }
    }
}

/// Largest finite magnitude of float kind `k`.
pub open spec fn max_finite(k: Kind) -> int {
    (pow2(precision(k)) - 1) * pow2((exp_all_ones(k) - 1 - bias(k) - frac_bits(k)) as nat)
}

pub(crate) proof fn lemma_bit_len(n: nat)
    ensures
        n < pow2(bit_len(n)),
        n > 0 ==> pow2((bit_len(n) - 1) as nat) <= n,
    decreases n,
{
    if n > 0 {
        lemma_bit_len(n / 2);
        lemma_pow2_unfold(bit_len(n));
        if n / 2 > 0 {
            lemma_pow2_unfold(bit_len(n / 2));
        } else {
            lemma2_to64();
        }
    } else {
        lemma2_to64();
    }
}

pub(crate) proof fn lemma_bit_len_le(n: nat, k: nat)
    requires
        n < pow2(k),
    ensures
        bit_len(n) <= k,
    decreases n,
{
    if n > 0 {
        if k == 0 {
            lemma2_to64();
        }
        lemma_pow2_unfold(k);
        lemma_bit_len_le(n / 2, (k - 1) as nat);
    }
}

/// `2^n` as a `u64`.
pub(crate) fn pow2_u64(n: u64) -> (r: u64)
    requires
        n < 64,
    ensures
        r == pow2(n as nat),
{
    proof {
        lemma_u64_pow2_no_overflow(n as nat);
        lemma_u64_shl_is_mul(1, n);
    }
    1u64 << n
}

/// `2^n` as a `u128`.
pub(crate) fn pow2_u128(n: u64) -> (r: u128)
    requires
        n < 128,
    ensures
        r == pow2(n as nat),
{
    let mut r: u128 = 1;
    let mut i: u64 = 0;
    proof {
        lemma2_to64();
        lemma2_to64_rest();
        lemma_pow2_adds(64, 63);
    }
    while i < n
        invariant
            i <= n < 128,
            r == pow2(i as nat),
            pow2(127) == pow2(64) * pow2(63),
            pow2(64) == 0x1_0000_0000_0000_0000,
            pow2(63) == 0x8000_0000_0000_0000,
        decreases n - i,
    {
        proof {
            lemma_pow2_unfold((i + 1) as nat);
            if i + 1 < 127 {
                lemma_pow2_strictly_increases((i + 1) as nat, 127);
            }
        }
        r = r * 2;
        i = i + 1;
    }
    r
}

/// Number of binary digits of `n`.
pub(crate) fn bit_len_u64(n: u64) -> (r: u64)
    ensures
        r == bit_len(n as nat),
        r <= 64,
{
    proof {
        lemma2_to64();
        lemma_bit_len_le(n as nat, 64);
    }
    let mut m: u64 = n;
    let mut l: u64 = 0;
    while m > 0
        invariant
            l + bit_len(m as nat) == bit_len(n as nat),
            bit_len(n as nat) <= 64,
        decreases m,
    {
        m = m / 2;
        l = l + 1;
    }
    l
}

/// `m / 2^s` is below `2^p` when `m` has at most `s + p` digits.
proof fn lemma_div_pow2_lt(m: nat, l: nat, s: nat, p: nat)
    requires
        m < pow2(l),
        l <= s + p,
    ensures
        m / pow2(s) < pow2(p),
{
    lemma_pow2_pos(s);
    lemma_pow2_pos(p);
    if l <= s {
        if l < s {
            lemma_pow2_strictly_increases(l, s);
        }
        lemma_small_div(m, pow2(s));
    } else {
        let d = (l - s) as nat;
        lemma_pow2_adds(s, d);
        lemma_multiply_divide_lt(m as int, pow2(s) as int, pow2(d) as int);
        if d < p {
            lemma_pow2_strictly_increases(d, p);
        }
    }
}

proof fn lemma_small_div(m: nat, d: nat)
    requires
        m < d,
    ensures
        m / d == 0,
{
    lemma_small_mod(m, d);
    lemma_fundamental_div_mod(m as int, d as int);
    assert(d * (m / d) == 0) by (nonlinear_arith)
        requires
            d * (m / d) + m % d == m,
            m % d == m,
    ;
    assert(m / d == 0) by (nonlinear_arith)
        requires
            d * (m / d) == 0,
            d > 0,
    ;
}

proof fn lemma_round_shift_bound(m: nat, l: nat, s: nat, p: nat)
    requires
        m < pow2(l),
        l <= s + p,
        1 <= s,
    ensures
        round_shift(m, s) <= pow2(p),
{
    lemma_div_pow2_lt(m, l, s, p);
    let q = m / pow2(s);
    let pp = pow2(p);
    assert(q < pp);
    assert(q + 1 <= pp) by (nonlinear_arith)
        requires
            q < pp,
    ;
    assert(round_shift(m, s) <= q + 1);
}

/// `m / 2^s`, rounded to the nearest integer, ties to even.
fn round_shift_u128(m: u64, s: u64) -> (r: u128)
    requires
        1 <= s,
    ensures
        r == round_shift(m as nat, s as nat),
        r <= m as nat / pow2(s as nat) + 1,
{
    proof {
        lemma2_to64();
        lemma_pow2_pos(s as nat);
    }
    if s > 64 {
        proof {
            if s > 65 {
                lemma_pow2_strictly_increases(64, (s - 1) as nat);
            }
            lemma_pow2_strictly_increases(64, s as nat);
            lemma_small_mod(m as nat, pow2(s as nat));
            lemma_small_div(m as nat, pow2(s as nat));
        }
        return 0;
    }
    let h = pow2_u64(s - 1);
    let pw: u128 = h as u128 * 2;
    proof {
        lemma_pow2_unfold(s as nat);
        lemma_div_nonincreasing(m as int, pw as int);
    }
    let q: u128 = m as u128 / pw;
    let r: u128 = m as u128 % pw;
    if r > h as u128 || (r == h as u128 && q % 2 == 1) {
        q + 1
    } else {
        q
    }
}

/// The bit pattern of the number of float kind `k` nearest to
/// `(-1)^neg * mag * 2^e`, ties to even.
pub fn encode_bits(k: Kind, neg: bool, mag: u64, e: i64) -> (r: u64)
    requires
        k.is_float(),
        -4000 <= e <= 4000,
    ensures
        r == encode(k, neg, mag as nat, e as int),
        r < pow2(k.bits()),
{
    proof {
        lemma2_to64();
        lemma2_to64_rest();
    }
    let f32k = match k {
        Kind::F32 => true,
        _ => false,
    };
    let p: i64 = if f32k { 24 } else { 53 };
    let top: u64 = if f32k { 0x80_0000 } else { 0x10_0000_0000_0000 };
    let sbit: u64 = if f32k { 0x8000_0000 } else { 0x8000_0000_0000_0000 };
    let ones: u64 = if f32k { 255 } else { 2047 };
    let mins: i64 = if f32k { -149 } else { -1074 };
    assert(p == precision(k) && top == pow2(frac_bits(k)) && sbit == sign_bit(k));
    assert(ones == exp_all_ones(k) && mins == min_scale(k));
    assert(pow2(precision(k)) == 2 * top);
    let sb: u64 = if neg { sbit } else { 0 };
    if mag == 0 {
        return sb;
    }
    let l = bit_len_u64(mag) as i64;
    proof {
        lemma_bit_len(mag as nat);
    }
    let qe: i64 = if l + e - p >= mins { l + e - p } else { mins };
    let q: u64 = if e >= qe {
        let d = (e - qe) as u64;
        proof {
            lemma_pow2_pos(d as nat);
            lemma_mul_strict_inequality(mag as int, pow2(l as nat) as int, pow2(d as nat) as int);
            lemma_pow2_adds(l as nat, d as nat);
            if l + d < p {
                lemma_pow2_strictly_increases((l + d) as nat, p as nat);
            }
        }
        mag * pow2_u64(d)
    } else {
        let s = (qe - e) as u64;
        let r = round_shift_u128(mag, s);
        proof {
            lemma_round_shift_bound(mag as nat, l as nat, s as nat, p as nat);
            assert(r <= 2 * top);
        }
        r as u64
    };
    assert(q <= 2 * top);
    assert(q == (if e >= qe {
        (mag * pow2((e - qe) as nat)) as nat
    } else {
        round_shift(mag as nat, (qe - e) as nat)
    }));
    let q2: u64 = if q == 2 * top { top } else { q };
    let qe2: i64 = if q == 2 * top { qe + 1 } else { qe };
    if q2 < top {
        return sb + q2;
    }
    let ef = qe2 - mins + 1;
    if ef >= ones as i64 {
        return sb + ones * top;
    }
    assert((ef as u64) * top + (q2 - top) < ones * top) by (nonlinear_arith)
        requires
            1 <= ef < ones,
            top <= q2 < 2 * top,
    ;
    sb + (ef as u64) * top + (q2 - top)
}

/// The payload of a NaN of kind `ks`, carried into a quiet NaN of kind `kt`.
pub open spec fn nan_convert(ks: Kind, kt: Kind, b: nat) -> nat {
    let payload = frac_field(ks, b);
    let shifted = if frac_bits(kt) >= frac_bits(ks) {
        payload * pow2((frac_bits(kt) - frac_bits(ks)) as nat)
    } else {
        payload / pow2((frac_bits(ks) - frac_bits(kt)) as nat)
    };
    let quiet = pow2((frac_bits(kt) - 1) as nat);
    inf_bits(kt, is_neg_bits(ks, b)) + shifted % quiet + quiet
}

/// The integer that `as` makes of a float: its integer part, saturated at
/// the bounds of the target kind.
pub open spec fn saturate(t: Kind, v: int) -> int {
    if v < t.min() {
        t.min()
    } else if v > t.max() {
        t.max()
    } else {
        v
    }
}

/// The checked conversion of the float with bits `b` of kind `k` to the
/// integer kind `t`: the value must lie between the bounds of `t`, each
/// rounded to kind `k`, compared exactly.
pub open spec fn float_to_int(k: Kind, b: nat, t: Kind) -> Option<int> {
    let sig = significand(k, b);
    let sc = scale(k, b);
    if !is_finite_bits(k, b) {
        None
    } else if is_neg_bits(k, b) {
        if le_bound(sig, sc, -round_int(k, t.min())) {
            Some(saturate(t, -(trunc_mag(sig, sc) as int)))
        } else {
            None
        }
    } else {
        if le_bound(sig, sc, round_int(k, t.max())) {
            Some(saturate(t, trunc_mag(sig, sc) as int))
        } else {
            None
        }
    }
}

/// The checked conversion between two float kinds: a narrowing one fails
/// where the magnitude exceeds the largest finite number of the target; NaN
/// passes as a NaN.
pub open spec fn float_to_float(ks: Kind, kt: Kind, b: nat) -> Option<nat> {
    let neg = is_neg_bits(ks, b);
    let sig = significand(ks, b);
    let sc = scale(ks, b);
    if is_nan_bits(ks, b) {
        Some(nan_convert(ks, kt, b))
    } else if kt.bits() < ks.bits() && (is_inf_bits(ks, b) || !le_bound(sig, sc, max_finite(kt))) {
        None
    } else if is_inf_bits(ks, b) {
        Some(inf_bits(kt, neg))
    } else {
        Some(encode(kt, neg, sig, sc))
    }
}

/// The fields of a bit pattern: sign, exponent and fraction.
pub fn decode_bits(k: Kind, b: u64) -> (r: (bool, u64, u64))
    requires
        k.is_float(),
        b < pow2(k.bits()),
    ensures
        r.0 == is_neg_bits(k, b as nat),
        r.1 == exp_field(k, b as nat),
        r.2 == frac_field(k, b as nat),
        r.1 <= exp_all_ones(k),
        r.2 < pow2(frac_bits(k)),
{
    proof {
        lemma2_to64();
        lemma2_to64_rest();
    }
    match k {
        Kind::F32 => (b >= 0x8000_0000, (b % 0x8000_0000) / 0x80_0000, b % 0x80_0000),
        _ => (
            b >= 0x8000_0000_0000_0000,
            (b % 0x8000_0000_0000_0000) / 0x10_0000_0000_0000,
            b % 0x10_0000_0000_0000,
        ),
    }
}

/// Significand and scale of a finite number from its fields.
fn sig_scale(k: Kind, b: u64) -> (r: (bool, u64, i64))
    requires
        k.is_float(),
        b < pow2(k.bits()),
    ensures
        r.0 == is_neg_bits(k, b as nat),
        r.1 == significand(k, b as nat),
        r.2 == scale(k, b as nat),
        r.1 < pow2(precision(k)),
        -1074 <= r.2 <= 1024,
{
    proof {
        lemma2_to64();
        lemma2_to64_rest();
    }
    let (neg, exp, frac) = decode_bits(k, b);
    let (top, mins): (u64, i64) = match k {
        Kind::F32 => (0x80_0000, -149),
        _ => (0x10_0000_0000_0000, -1074),
    };
    if exp == 0 {
        (neg, frac, mins)
    } else {
        (neg, frac + top, exp as i64 + mins - 1)
    }
}

proof fn lemma_mul_le_iff_le_div(a: int, p: int, b: int)
    requires
        a >= 0,
        p > 0,
        b >= 0,
    ensures
        (a * p <= b) == (a <= b / p),
{
    lemma_fundamental_div_mod(b, p);
    let q = b / p;
    let r = b % p;
    assert(0 <= r < p);
    if a <= q {
        lemma_mul_inequality(a, q, p);
        assert(a * p <= q * p);
        assert(q * p == p * q) by (nonlinear_arith);
    } else {
        lemma_mul_inequality(q + 1, a, p);
        assert((q + 1) * p == p * q + p) by (nonlinear_arith);
    }
}

proof fn lemma_le_mul_iff(x: int, p: int, b: int)
    requires
        x >= 0,
        p > 0,
        b >= 0,
    ensures
        (x <= b * p) == (x / p < b || (x / p == b && x % p == 0)),
{
    lemma_fundamental_div_mod(x, p);
    let t = x / p;
    let r = x % p;
    assert(0 <= r < p);
    assert(x == p * t + r);
    if t < b {
        lemma_mul_inequality(t + 1, b, p);
        assert((t + 1) * p == p * t + p) by (nonlinear_arith);
    } else if t == b {
        assert(b * p == p * t) by (nonlinear_arith)
            requires
                t == b,
        ;
    } else {
        lemma_mul_inequality(b + 1, t, p);
        assert((b + 1) * p == b * p + p) by (nonlinear_arith);
        assert(t * p == p * t) by (nonlinear_arith);
    }
}

/// Whether `sig * 2^sc <= bound`, compared exactly.
fn le_bound_u128(sig: u64, sc: i64, bound: u128) -> (r: bool)
    requires
        sig < pow2(53),
        -2000 <= sc <= 2000,
    ensures
        r == le_bound(sig as nat, sc as int, bound as int),
{
    proof {
        lemma2_to64();
        lemma2_to64_rest();
    }
    if sc >= 0 {
        if sc >= 128 {
            proof {
                lemma_pow2_adds(64, 64);
                if sc > 128 {
                    lemma_pow2_strictly_increases(128, sc as nat);
                }
                let pw = pow2(sc as nat) as int;
                if sig > 0 {
                    lemma_mul_inequality(1, sig as int, pw);
                    lemma_mul_basics(pw);
                } else {
                    lemma_mul_basics(pw);
                }
            }
            return sig == 0;
        }
        let pw = pow2_u128(sc as u64);
        proof {
            lemma_pow2_pos(sc as nat);
            lemma_mul_le_iff_le_div(sig as int, pw as int, bound as int);
        }
        (sig as u128) <= bound / pw
    } else {
        let s = (-sc) as u64;
        if s >= 64 {
            proof {
                lemma_pow2_pos(s as nat);
                lemma_pow2_strictly_increases(53, s as nat);
                let pw = pow2(s as nat) as int;
                if bound >= 1 {
                    lemma_mul_inequality(1, bound as int, pw);
                    lemma_mul_basics(pw);
                } else {
                    lemma_mul_basics(pw);
                }
            }
            return bound >= 1 || sig == 0;
        }
        let pw = pow2_u128(s);
        proof {
            lemma_pow2_pos(s as nat);
            lemma_le_mul_iff(sig as int, pw as int, bound as int);
        }
        let t = sig as u128 / pw;
        let rem = sig as u128 % pw;
        t < bound || (t == bound && rem == 0)
    }
}

/// The magnitude `m` rounded to the precision of float kind `k`.
fn round_mag_u128(k: Kind, m: u64) -> (r: u128)
    requires
        k.is_float(),
    ensures
        r == round_mag(k, m as nat),
        r <= pow2(64),
{
    proof {
        lemma2_to64();
        lemma2_to64_rest();
        lemma_bit_len(m as nat);
        lemma_bit_len_le(m as nat, 64);
    }
    let p: u64 = match k {
        Kind::F32 => 24,
        _ => 53,
    };
    let l = bit_len_u64(m);
    if l <= p {
        return m as u128;
    }
    let s = l - p;
    let q = round_shift_u128(m, s);
    proof {
        lemma_round_shift_bound(m as nat, l as nat, s as nat, p as nat);
        lemma_mul_inequality(q as int, pow2(p as nat) as int, pow2(s as nat) as int);
        lemma_pow2_adds(p as nat, s as nat);
        if l < 64 {
            lemma_pow2_strictly_increases(l as nat, 64);
        }
    }
    q * (pow2_u64(s) as u128)
}

/// The integer `v` rounded to the precision of float kind `k`.
fn round_int_i128(k: Kind, v: i128) -> (r: i128)
    requires
        k.is_float(),
        -0x1_0000_0000_0000_0000 < v < 0x1_0000_0000_0000_0000,
    ensures
        r == round_int(k, v as int),
        -0x1_0000_0000_0000_0000 <= r <= 0x1_0000_0000_0000_0000,
{
    proof {
        lemma2_to64();
    }
    if v >= 0 {
        round_mag_u128(k, v as u64) as i128
    } else {
        -(round_mag_u128(k, (-v) as u64) as i128)
    }
}

/// The integer part of `sig * 2^sc`, known to be at most `bound`.
fn trunc_u128(sig: u64, sc: i64, bound: u128) -> (r: u128)
    requires
        sig < pow2(53),
        -2000 <= sc <= 2000,
        bound <= pow2(64),
        le_bound(sig as nat, sc as int, bound as int),
    ensures
        r == trunc_mag(sig as nat, sc as int),
        r <= bound,
{
    proof {
        lemma2_to64();
        lemma2_to64_rest();
    }
    if sc >= 0 {
        if sig == 0 {
            proof {
                lemma_mul_basics(pow2(sc as nat) as int);
            }
            return 0;
        }
        proof {
            lemma_mul_inequality(1, sig as int, pow2(sc as nat) as int);
            lemma_mul_basics(pow2(sc as nat) as int);
            if sc > 64 {
                lemma_pow2_strictly_increases(64, sc as nat);
            }
        }
        (sig as u128) * pow2_u128(sc as u64)
    } else {
        let s = (-sc) as u64;
        proof {
            lemma_pow2_pos(s as nat);
            lemma_multiply_divide_le(sig as int, pow2(s as nat) as int, bound as int);
            assert(bound * pow2(s as nat) == pow2(s as nat) * bound) by (nonlinear_arith);
        }
        if s >= 64 {
            proof {
                lemma_pow2_strictly_increases(53, s as nat);
                lemma_small_div(sig as nat, pow2(s as nat));
            }
            return 0;
        }
        (sig as u128) / pow2_u128(s)
    }
}

/// Clamps `v` to the bounds of the integer kind `t`.
fn saturate_i128(t: Kind, v: i128) -> (r: i128)
    requires
        t.is_int(),
    ensures
        r == saturate(t, v as int),
{
    let (lo, hi) = t.int_bounds();
    if v < lo {
        lo
    } else if v > hi {
        hi
    } else {
        v
    }
}

/// The checked conversion of the float with bits `b` of kind `k` to the
/// integer kind `t`.
pub fn float_to_int_exec(k: Kind, b: u64, t: Kind) -> (r: Option<i128>)
    requires
        k.is_float(),
        t.is_int(),
        b < pow2(k.bits()),
    ensures
        r.is_some() == float_to_int(k, b as nat, t).is_some(),
        r.is_some() ==> r.unwrap() as int == float_to_int(k, b as nat, t).unwrap(),
{
    proof {
        lemma2_to64();
    }
    let (_neg, exp, _frac) = decode_bits(k, b);
    let ones: u64 = match k {
        Kind::F32 => 255,
        _ => 2047,
    };
    if exp == ones {
        return None;
    }
    let (neg, sig, sc) = sig_scale(k, b);
    proof {
        lemma2_to64_rest();
        if precision(k) < 53 {
            lemma_pow2_strictly_increases(precision(k), 53);
        }
    }
    let (lo, hi) = t.int_bounds();
    if neg {
        let bound = -round_int_i128(k, lo);
        if !le_bound_u128(sig, sc, bound as u128) {
            return None;
        }
        let m = trunc_u128(sig, sc, bound as u128);
        Some(saturate_i128(t, -(m as i128)))
    } else {
        let bound = round_int_i128(k, hi);
        if !le_bound_u128(sig, sc, bound as u128) {
            return None;
        }
        let m = trunc_u128(sig, sc, bound as u128);
        Some(saturate_i128(t, m as i128))
    }
}

proof fn lemma_max_finite_f32()
    ensures
        max_finite(Kind::F32) == 0xffff_ff00_0000_0000_0000_0000_0000_0000,
{
    lemma2_to64();
    lemma2_to64_rest();
    lemma_pow2_adds(64, 40);
    let a = pow2(64);
    let b = pow2(40);
    assert(a * b == 0x100_0000_0000_0000_0000_0000_0000) by (nonlinear_arith)
        requires
            a == 0x1_0000_0000_0000_0000,
            b == 0x100_0000_0000,
    ;
    let c = pow2(104);
    assert((pow2(24) - 1) * c == 0xffff_ff00_0000_0000_0000_0000_0000_0000) by (nonlinear_arith)
        requires
            c == 0x100_0000_0000_0000_0000_0000_0000,
            pow2(24) == 0x100_0000,
    ;
}

/// The checked conversion between two distinct float kinds.
pub fn float_to_float_exec(ks: Kind, kt: Kind, b: u64) -> (r: Option<u64>)
    requires
        ks.is_float(),
        kt.is_float(),
        ks != kt,
        b < pow2(ks.bits()),
    ensures
        r.is_some() == float_to_float(ks, kt, b as nat).is_some(),
        r.is_some() ==> r.unwrap() == float_to_float(ks, kt, b as nat).unwrap(),
        r.is_some() ==> r.unwrap() < pow2(kt.bits()),
{
    proof {
        lemma2_to64();
        lemma2_to64_rest();
    }
    let (neg, exp, frac) = decode_bits(ks, b);
    let widening = match ks {
        Kind::F32 => true,
        _ => false,
    };
    let ones_s: u64 = if widening { 255 } else { 2047 };
    let inf: u64 = if widening {
        if neg { 0xfff0_0000_0000_0000 } else { 0x7ff0_0000_0000_0000 }
    } else {
        if neg { 0xff80_0000 } else { 0x7f80_0000 }
    };
    assert(inf == inf_bits(kt, neg));
    if exp == ones_s && frac != 0 {
        let (shifted, quiet) = if widening {
            (frac * 0x2000_0000, 0x8_0000_0000_0000u64)
        } else {
            (frac / 0x2000_0000, 0x40_0000u64)
        };
        return Some(inf + shifted % quiet + quiet);
    }
    let (neg, sig, sc) = sig_scale(ks, b);
    if !widening {
        if exp == ones_s {
            return None;
        }
        proof {
            lemma_max_finite_f32();
        }
        if !le_bound_u128(sig, sc, 0xffff_ff00_0000_0000_0000_0000_0000_0000u128) {
            return None;
        }
    }
    if exp == ones_s {
        return Some(inf);
    }
    Some(encode_bits(kt, neg, sig, sc))
}

/// A magnitude below `2^precision` is encoded exactly: the result is
/// finite, carries the sign, and its significand scaled by its scale is the
/// magnitude.
pub proof fn lemma_encode_exact(k: Kind, neg: bool, m: nat)
    requires
        k.is_float(),
        0 < m < pow2(precision(k)),
    ensures
        bit_len(m) <= precision(k),
        is_finite_bits(k, encode(k, neg, m, 0)),
        is_neg_bits(k, encode(k, neg, m, 0)) == neg,
        significand(k, encode(k, neg, m, 0)) == m * pow2((precision(k) - bit_len(m)) as nat),
        scale(k, encode(k, neg, m, 0)) == bit_len(m) - precision(k),
{
    lemma2_to64();
    lemma2_to64_rest();
    lemma_bit_len(m);
    lemma_bit_len_le(m, precision(k));
    let p = precision(k);
    let l = bit_len(m);
    let d = (p - l) as nat;
    let top = pow2(frac_bits(k));
    let sbit = sign_bit(k);
    let q = m * pow2(d);
    lemma_pow2_adds(l, d);
    lemma_pow2_adds((l - 1) as nat, d);
    lemma_pow2_pos(d);
    lemma_mul_strict_inequality(m as int, pow2(l) as int, pow2(d) as int);
    lemma_mul_inequality(pow2((l - 1) as nat) as int, m as int, pow2(d) as int);
    assert(top <= q < 2 * top);
    let ef = (l - p) - min_scale(k) + 1;
    assert(1 <= ef < exp_all_ones(k));
    let x = ef * top + (q - top);
    let sb: nat = if neg {
        sbit
    } else {
        0
    };
    assert(encode(k, neg, m, 0) == sb + x);
    assert(x < sbit) by (nonlinear_arith)
        requires
            1 <= ef < exp_all_ones(k),
            q - top < top,
            x == ef * top + (q - top),
            exp_all_ones(k) * top < sbit,
    ;
    assert(0 <= x);
    let b = sb + x;
    if neg {
        lemma_mod_add_multiples_vanish(x, sbit as int);
    }
    lemma_small_mod(x as nat, sbit);
    assert(b % (sbit as int) == x);
    lemma_fundamental_div_mod_converse(x, top as int, ef, q - top);
    let c: int = if !neg {
        0
    } else if k == Kind::F32 {
        0x100
    } else {
        0x800
    };
    assert(sb == c * top);
    lemma_fundamental_div_mod_converse(b, top as int, c + ef, q - top);
}

/// The significand `m * 2^d` at scale `-d` stands for the integer `m`.
pub proof fn lemma_scaled_integer(m: nat, d: nat, bound: int)
    requires
        bound >= 0,
    ensures
        trunc_mag(m * pow2(d), -d) == m,
        le_bound(m * pow2(d), -d, bound) == (m <= bound),
{
    lemma2_to64();
    lemma_pow2_pos(d);
    if d == 0 {
        lemma_mul_basics(m as int);
    } else {
        lemma_div_multiples_vanish(m as int, pow2(d) as int);
        assert(pow2(d) * m == m * pow2(d)) by (nonlinear_arith);
        if m <= bound {
            lemma_mul_inequality(m as int, bound, pow2(d) as int);
        } else {
            lemma_mul_inequality(bound + 1, m as int, pow2(d) as int);
            assert((bound + 1) * pow2(d) == bound * pow2(d) + pow2(d)) by (nonlinear_arith);
        }
    }
}

/// Rounding a magnitude `v` to the precision of `k` keeps it at least any
/// `m <= v` that `k` represents exactly.
pub proof fn lemma_round_mag_ge(k: Kind, m: nat, v: nat)
    requires
        k.is_float(),
        m <= v,
        m < pow2(precision(k)),
    ensures
        m <= round_mag(k, v),
{
    let p = precision(k);
    let l = bit_len(v);
    if l > p {
        let s = (l - p) as nat;
        lemma_bit_len(v);
        lemma_pow2_pos(s);
        lemma_pow2_adds((p - 1) as nat, s);
        lemma_div_is_ordered((pow2((p - 1) as nat) * pow2(s)) as int, v as int, pow2(s) as int);
        lemma_div_multiples_vanish(pow2((p - 1) as nat) as int, pow2(s) as int);
        assert(pow2(s) * pow2((p - 1) as nat) == pow2((p - 1) as nat) * pow2(s)) by (nonlinear_arith);
        let q = round_shift(v, s);
        assert(q >= v / pow2(s));
        lemma_mul_inequality(pow2((p - 1) as nat) as int, q as int, pow2(s) as int);
        if p < (l - 1) as nat {
            lemma_pow2_strictly_increases(p, (l - 1) as nat);
        }
    }
}

} // verus!
