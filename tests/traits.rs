use numeric_traits::{Float, FpCategory, Int, One, Signed, UnsignedInt, Zero, F32, F64};

fn f32_of(x: f32) -> F32 {
    F32::from_bits(x.to_bits())
}

fn f64_of(x: f64) -> F64 {
    F64::from_bits(x.to_bits())
}

#[test]
fn zero_and_one() {
    assert_eq!(<i32 as Zero>::zero(), 0);
    assert_eq!(<u8 as One>::one(), 1);
    assert_eq!(<F32 as Zero>::zero().to_bits(), 0.0f32.to_bits());
    assert_eq!(<F32 as One>::one().to_bits(), 1.0f32.to_bits());
    assert_eq!(<F64 as Zero>::zero().to_bits(), 0.0f64.to_bits());
    assert_eq!(<F64 as One>::one().to_bits(), 1.0f64.to_bits());
}

#[test]
fn signed_integers() {
    assert_eq!(Signed::abs(&-5i32), 5);
    assert_eq!(Signed::abs(&i8::MIN), i8::MIN);
    assert_eq!(Signed::signum(&-7i64), -1);
    assert_eq!(Signed::signum(&0i16), 0);
    assert_eq!(Signed::signum(&9isize), 1);
    assert!(Signed::is_positive(&3i8));
    assert!(!Signed::is_positive(&0i8));
    assert!(Signed::is_negative(&-3i8));
    assert!(!Signed::is_negative(&0i8));
}

#[test]
fn signed_floats() {
    assert_eq!(Signed::abs(&f32_of(-2.5)).to_bits(), 2.5f32.to_bits());
    assert!(f64::from_bits(Signed::abs(&f64_of(f64::NAN)).to_bits()).is_nan());
    assert_eq!(Signed::signum(&f64_of(-0.0)).to_bits(), (-1.0f64).to_bits());
    assert_eq!(Signed::signum(&f32_of(f32::INFINITY)).to_bits(), 1.0f32.to_bits());
    assert!(f32::from_bits(Signed::signum(&f32_of(f32::NAN)).to_bits()).is_nan());
    assert!(!Signed::is_positive(&f32_of(f32::NAN)));
    assert!(!Signed::is_negative(&f64_of(f64::NAN)));
    assert!(Signed::is_negative(&f32_of(f32::NEG_INFINITY)));
    assert!(Signed::is_positive(&f64_of(f64::INFINITY)));
}

#[test]
fn sign_predicates_on_signed_zero() {
    let pos = 0.0f32;
    let neg = -0.0f32;
    assert!(Signed::is_positive(&f32_of(pos)));
    assert!(!Signed::is_negative(&f32_of(pos)));
    assert!(Signed::is_negative(&f32_of(neg)));
    assert!(!Signed::is_positive(&f32_of(neg)));
    // The reciprocal of a signed zero is an infinity of the same sign.
    assert_eq!(Signed::is_positive(&f32_of(1.0 / pos)), Signed::is_positive(&f32_of(pos)));
    assert_eq!(Signed::is_negative(&f32_of(1.0 / neg)), Signed::is_negative(&f32_of(neg)));
    assert!(Signed::is_positive(&f64_of(0.0)));
    assert!(Signed::is_negative(&f64_of(-0.0)));
    assert!(Signed::is_negative(&f64_of(1.0 / -0.0f64)));
}

#[test]
fn integer_bounds_and_checked_ops() {
    assert_eq!(<i8 as Int>::min_value(), -128);
    assert_eq!(<u16 as Int>::max_value(), 65535);
    assert_eq!(Int::checked_add(250u8, 5), Some(255));
    assert_eq!(Int::checked_add(250u8, 6), None);
    assert_eq!(Int::checked_sub(-128i8, 1), None);
    assert_eq!(Int::checked_mul(-64i8, 2), Some(-128));
    assert_eq!(Int::checked_mul(64i8, 2), None);
    assert_eq!(Int::checked_div(-7i32, 2), Some(-3));
    assert_eq!(Int::checked_div(7i32, 0), None);
    assert_eq!(Int::checked_div(i32::MIN, -1), None);
    assert_eq!(Int::checked_div(7u32, 2), Some(3));
}

#[test]
fn integer_saturating_and_wrapping_ops() {
    assert_eq!(Int::saturating_add(120i8, 10), 127);
    assert_eq!(Int::saturating_sub(-120i8, 10), -128);
    assert_eq!(Int::saturating_sub(3u32, 5), 0);
    assert_eq!(Int::saturating_add(u64::MAX, 1), u64::MAX);
    assert_eq!(Int::wrapping_add(255u8, 2), 1);
    assert_eq!(Int::wrapping_sub(0u16, 1), 65535);
    assert_eq!(Int::wrapping_add(127i8, 1), -128);
    assert_eq!(Int::wrapping_sub(-128i8, 1), 127);
}

#[test]
fn integer_wrapping_division_and_negation() {
    assert_eq!(Int::wrapping_div(-7i32, 2), -3);
    assert_eq!(Int::wrapping_div(i8::MIN, -1), i8::MIN);
    assert_eq!(Int::wrapping_div(200u8, 7), 28);
    assert_eq!(Int::wrapping_rem(-7i32, 2), -1);
    assert_eq!(Int::wrapping_rem(7i32, -2), 1);
    assert_eq!(Int::wrapping_rem(i16::MIN, -1), 0);
    assert_eq!(Int::wrapping_rem(200u8, 7), 4);
    assert_eq!(Int::wrapping_neg(5i32), -5);
    assert_eq!(Int::wrapping_neg(i64::MIN), i64::MIN);
    assert_eq!(Int::wrapping_neg(1u8), 255);
    assert_eq!(Int::wrapping_neg(0u32), 0);
}

#[test]
fn integer_wrapping_multiplication() {
    assert_eq!(Int::wrapping_mul(16u8, 17), 16);
    assert_eq!(Int::wrapping_mul(64i8, 2), -128);
    assert_eq!(Int::wrapping_mul(-128i8, -1), -128);
    assert_eq!(Int::wrapping_mul(100i16, 400), -25536);
    assert_eq!(Int::wrapping_mul(u64::MAX, 3), u64::MAX - 2);
}

#[test]
fn integer_shifts_and_rotations() {
    let samples: [i64; 8] = [0, 1, -1, 5, -77, i64::MIN, i64::MAX, 0x0123_4567_89ab_cdef];
    for v in samples {
        for n in [0u32, 1, 3, 7, 8, 13, 31, 32, 63, 64, 65, 100] {
            let a = v as i8;
            assert_eq!(Int::rotate_left(a, n), a.rotate_left(n));
            assert_eq!(Int::rotate_right(a, n), a.rotate_right(n));
            assert_eq!(Int::wrapping_shl(a, n), a.wrapping_shl(n));
            assert_eq!(Int::wrapping_shr(a, n), a.wrapping_shr(n));
            let b = v as u16;
            assert_eq!(Int::rotate_left(b, n), b.rotate_left(n));
            assert_eq!(Int::rotate_right(b, n), b.rotate_right(n));
            assert_eq!(Int::wrapping_shl(b, n), b.wrapping_shl(n));
            assert_eq!(Int::wrapping_shr(b, n), b.wrapping_shr(n));
            assert_eq!(Int::rotate_left(v, n), v.rotate_left(n));
            assert_eq!(Int::rotate_right(v, n), v.rotate_right(n));
            assert_eq!(Int::wrapping_shl(v, n), v.wrapping_shl(n));
            assert_eq!(Int::wrapping_shr(v, n), v.wrapping_shr(n));
            let c = v as u64;
            assert_eq!(Int::rotate_left(c, n), c.rotate_left(n));
            assert_eq!(Int::rotate_right(c, n), c.rotate_right(n));
            assert_eq!(Int::wrapping_shl(c, n), c.wrapping_shl(n));
            assert_eq!(Int::wrapping_shr(c, n), c.wrapping_shr(n));
            let d = v as isize;
            assert_eq!(Int::rotate_left(d, n), d.rotate_left(n));
            assert_eq!(Int::wrapping_shr(d, n), d.wrapping_shr(n));
        }
    }
    assert_eq!(Int::rotate_left(0b1000_0001u8, 1), 0b0000_0011);
    assert_eq!(Int::swap_bytes(0x1234u16), 0x3412);
    assert_eq!(Int::swap_bytes(0x12u8), 0x12);
    assert_eq!(Int::swap_bytes(0x0000_00ffi32), -0x0100_0000);
    for v in samples {
        assert_eq!(Int::swap_bytes(v), v.swap_bytes());
        assert_eq!(Int::swap_bytes(v as u32), (v as u32).swap_bytes());
        assert_eq!(Int::swap_bytes(v as i16), (v as i16).swap_bytes());
        assert_eq!(Int::swap_bytes(v as usize), (v as usize).swap_bytes());
    }
    assert_eq!(Int::wrapping_shr(-7i32, 1), -4);
}

#[test]
fn integer_parsing() {
    assert_eq!(<i32 as Int>::from_str_radix("-7f", 16), Ok(-127));
    assert_eq!(<u8 as Int>::from_str_radix("+11111111", 2), Ok(255));
    assert_eq!(<u8 as Int>::from_str_radix("zz", 36).ok(), None);
    assert_eq!(<u8 as Int>::from_str_radix("256", 10).ok(), None);
    assert_eq!(<i8 as Int>::from_str_radix("-128", 10), Ok(-128));
    assert_eq!(<i8 as Int>::from_str_radix("128", 10).ok(), None);
    assert_eq!(<u16 as Int>::from_str_radix("-1", 10).ok(), None);
    assert_eq!(<u16 as Int>::from_str_radix("", 10).ok(), None);
    assert_eq!(<i64 as Int>::from_str_radix("-", 10).ok(), None);
    assert_eq!(<i64 as Int>::from_str_radix("+", 10).ok(), None);
    assert_eq!(<u32 as Int>::from_str_radix(" 12", 10).ok(), None);
    assert_eq!(<u32 as Int>::from_str_radix("1_000", 10).ok(), None);
    assert_eq!(<u32 as Int>::from_str_radix("Ab", 16), Ok(171));
    assert_eq!(<usize as Int>::from_str_radix("777", 8), Ok(511));
    assert_eq!(<u64 as Int>::from_str_radix("9", 8).ok(), None);
}

#[test]
fn integer_bit_counts() {
    assert_eq!(Int::count_ones(-1i8), 8);
    assert_eq!(Int::count_zeros(-1i8), 0);
    assert_eq!(Int::count_ones(0b1011u16), 3);
    assert_eq!(Int::count_zeros(0b1011u16), 13);
    assert_eq!(Int::leading_zeros(1u32), 31);
    assert_eq!(Int::leading_zeros(-5i64), 0);
    assert_eq!(Int::leading_zeros(0u8), 8);
    assert_eq!(Int::trailing_zeros(0u8), 8);
    assert_eq!(Int::trailing_zeros(40i32), 3);
    assert_eq!(Int::trailing_zeros(i16::MIN), 15);
    assert_eq!(Int::count_ones(usize::MAX), usize::BITS);
    assert_eq!(Int::leading_zeros(1isize), isize::BITS - 1);
}

#[test]
fn integer_power() {
    assert_eq!(Int::pow(2i32, 10), 1024);
    assert_eq!(Int::pow(-2i8, 7), -128);
    assert_eq!(Int::pow(-3i64, 3), -27);
    assert_eq!(Int::pow(7u8, 0), 1);
    assert_eq!(Int::pow(0u16, 5), 0);
    assert_eq!(Int::pow(2u64, 63), 1u64 << 63);
    assert_eq!(Int::pow(-1isize, 1001), -1);
}

#[test]
fn powers_of_two() {
    assert!(UnsignedInt::is_power_of_two(1u8));
    assert!(UnsignedInt::is_power_of_two(64u32));
    assert!(!UnsignedInt::is_power_of_two(0u32));
    assert!(!UnsignedInt::is_power_of_two(96u64));
    assert!(UnsignedInt::is_power_of_two(1u64 << 63));
    assert_eq!(UnsignedInt::next_power_of_two(0u8), 1);
    assert_eq!(UnsignedInt::next_power_of_two(5u16), 8);
    assert_eq!(UnsignedInt::next_power_of_two(8u32), 8);
    assert_eq!(UnsignedInt::checked_next_power_of_two(129u8), None);
    assert_eq!(UnsignedInt::checked_next_power_of_two(128u8), Some(128));
    assert_eq!(UnsignedInt::checked_next_power_of_two(u64::MAX), None);
    assert_eq!(UnsignedInt::checked_next_power_of_two((1u64 << 62) + 1), Some(1u64 << 63));
    assert_eq!(UnsignedInt::checked_next_power_of_two(1000usize), Some(1024));
}

#[test]
fn float_constants_and_classes() {
    assert!(f32::from_bits(<F32 as Float>::nan().to_bits()).is_nan());
    assert_eq!(<F64 as Float>::infinity().to_bits(), f64::INFINITY.to_bits());
    assert_eq!(<F32 as Float>::neg_infinity().to_bits(), f32::NEG_INFINITY.to_bits());
    assert_eq!(<F64 as Float>::neg_zero().to_bits(), (-0.0f64).to_bits());
    assert_eq!(<F32 as Float>::min_positive_value().to_bits(), f32::MIN_POSITIVE.to_bits());
    assert_eq!(<F64 as Float>::min_positive_value().to_bits(), f64::MIN_POSITIVE.to_bits());
    assert_eq!(f32_of(1.5).classify(), FpCategory::Normal);
    assert_eq!(f32_of(1e-40).classify(), FpCategory::Subnormal);
    assert_eq!(f64_of(-0.0).classify(), FpCategory::Zero);
    assert_eq!(f64_of(f64::NEG_INFINITY).classify(), FpCategory::Infinite);
    assert_eq!(f64_of(f64::NAN).classify(), FpCategory::Nan);
    assert!(f32_of(f32::NAN).is_nan());
    assert!(f64_of(f64::INFINITY).is_infinite());
    assert!(!f64_of(f64::INFINITY).is_finite());
    assert!(f32_of(-3.0).is_finite());
    assert!(!f32_of(1e-40).is_normal());
    assert!(f64_of(2.0).is_normal());
    assert!(f32_of(0.0).is_sign_positive());
    assert!(f32_of(-0.0).is_sign_negative());
    assert!(!f64_of(f64::INFINITY).is_sign_negative());
}
