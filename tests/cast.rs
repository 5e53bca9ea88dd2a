use numeric_traits::{CastFrom, CastInto, F32, F64};

fn f32_of(x: f32) -> F32 {
    F32::from_bits(x.to_bits())
}

fn f64_of(x: f64) -> F64 {
    F64::from_bits(x.to_bits())
}

fn native_f32(x: F32) -> f32 {
    f32::from_bits(x.to_bits())
}

fn native_f64(x: F64) -> f64 {
    f64::from_bits(x.to_bits())
}

#[test]
fn test_cast() {
    let a = 32i32;
    let b = F32::cast_from(a).unwrap();
    let c: Option<i32> = f64_of(1.0e+123f64).cast_into();
    assert_eq!(native_f32(b), 32.0f32);
    assert_eq!(c, None);
}

#[test]
fn same_kind_is_identity() {
    assert_eq!(i8::cast_from(-128i8), Some(-128i8));
    assert_eq!(u64::cast_from(u64::MAX), Some(u64::MAX));
    assert_eq!(isize::cast_from(isize::MIN), Some(isize::MIN));
    let inf = f32_of(f32::INFINITY);
    assert_eq!(F32::cast_from(inf), Some(inf));
    let nan = F64::from_bits(0x7ff0_0000_0000_0001);
    assert_eq!(F64::cast_from(nan), Some(nan));
}

#[test]
fn signed_widening_keeps_value() {
    for v in [i8::MIN, -1, 0, 1, i8::MAX] {
        assert_eq!(i16::cast_from(v), Some(v as i16));
        assert_eq!(i64::cast_from(v), Some(v as i64));
        assert_eq!(isize::cast_from(v), Some(v as isize));
    }
    assert_eq!(i64::cast_from(i32::MIN), Some(i32::MIN as i64));
    assert_eq!(i64::cast_from(isize::MAX), Some(isize::MAX as i64));
}

#[test]
fn signed_narrowing_checks_bounds() {
    assert_eq!(i8::cast_from(127i32), Some(127i8));
    assert_eq!(i8::cast_from(128i32), None);
    assert_eq!(i8::cast_from(-128i64), Some(-128i8));
    assert_eq!(i8::cast_from(-129i16), None);
    assert_eq!(i32::cast_from(i64::MAX), None);
}

#[test]
fn signed_to_unsigned() {
    assert_eq!(u8::cast_from(-1i8), None);
    assert_eq!(u64::cast_from(i64::MIN), None);
    assert_eq!(u8::cast_from(255i32), Some(255u8));
    assert_eq!(u8::cast_from(256i32), None);
    assert_eq!(u64::cast_from(i64::MAX), Some(i64::MAX as u64));
}

#[test]
fn unsigned_to_signed() {
    assert_eq!(i8::cast_from(200u8), None);
    assert_eq!(i8::cast_from(100u8), Some(100i8));
    assert_eq!(i8::cast_from(127u8), Some(127i8));
    assert_eq!(i8::cast_from(128u8), None);
    assert_eq!(i64::cast_from(u64::MAX), None);
    assert_eq!(i16::cast_from(300u64), Some(300i16));
}

#[test]
fn unsigned_to_unsigned() {
    assert_eq!(u64::cast_from(255u8), Some(255u64));
    assert_eq!(u8::cast_from(255u16), Some(255u8));
    assert_eq!(u8::cast_from(256u16), None);
    assert_eq!(u32::cast_from(u64::MAX), None);
}

#[test]
fn int_round_trip() {
    for v in [i16::MIN, -300, -1, 0, 1, 300, i16::MAX] {
        let wide: i64 = v.cast_into().unwrap();
        assert_eq!(i16::cast_from(wide), Some(v));
    }
    for v in [0u32, 1, 65536, u32::MAX] {
        let wide: u64 = v.cast_into().unwrap();
        assert_eq!(u32::cast_from(wide), Some(v));
        let signed: i64 = v.cast_into().unwrap();
        assert_eq!(u32::cast_from(signed), Some(v));
    }
}

#[test]
fn int_to_float_matches_native_rounding() {
    let mut samples: Vec<i64> = vec![0, 1, -1, 32, 16_777_216, 16_777_217, 16_777_219, -16_777_217];
    samples.extend([i64::MIN, i64::MAX, i32::MIN as i64, i32::MAX as i64, 9_007_199_254_740_993]);
    let mut x: u64 = 0x9e37_79b9_7f4a_7c15;
    for _ in 0..2000 {
        x ^= x << 13;
        x ^= x >> 7;
        x ^= x << 17;
        samples.push((x as i64) >> (x % 60));
    }
    for v in samples {
        assert_eq!(F32::cast_from(v).unwrap().to_bits(), (v as f32).to_bits(), "{}", v);
        assert_eq!(F64::cast_from(v).unwrap().to_bits(), (v as f64).to_bits(), "{}", v);
    }
    for v in [0u64, 1, u64::MAX, u64::MAX - 1, 1 << 63, (1 << 53) + 1] {
        assert_eq!(F32::cast_from(v).unwrap().to_bits(), (v as f32).to_bits());
        assert_eq!(F64::cast_from(v).unwrap().to_bits(), (v as f64).to_bits());
    }
    assert_eq!(native_f32(F32::cast_from(32i32).unwrap()), 32.0f32);
    assert_eq!(native_f64(F64::cast_from(-7i8).unwrap()), -7.0f64);
}

#[test]
fn float_to_int_checks_bounds() {
    assert_eq!(i32::cast_from(f64_of(1.0e123)), None);
    assert_eq!(i32::cast_from(f64_of(32.9)), Some(32));
    assert_eq!(i32::cast_from(f64_of(-32.9)), Some(-32));
    assert_eq!(i8::cast_from(f32_of(127.0)), Some(127));
    assert_eq!(i8::cast_from(f32_of(127.5)), None);
    assert_eq!(i8::cast_from(f32_of(-128.0)), Some(-128));
    assert_eq!(i8::cast_from(f32_of(-128.5)), None);
    assert_eq!(u8::cast_from(f32_of(-0.0)), Some(0));
    assert_eq!(u8::cast_from(f32_of(-0.5)), None);
    assert_eq!(u8::cast_from(f64_of(255.0)), Some(255));
    assert_eq!(u8::cast_from(f64_of(255.5)), None);
    assert_eq!(i32::cast_from(f32_of(f32::NAN)), None);
    assert_eq!(i64::cast_from(f64_of(f64::INFINITY)), None);
    assert_eq!(u64::cast_from(f64_of(f64::NEG_INFINITY)), None);
    assert_eq!(u32::cast_from(f64_of(1.0e-300)), Some(0));
    // i32::MAX rounds up to 2^31 in f32, so 2^31 passes and saturates.
    assert_eq!(i32::cast_from(f32_of(2147483648.0)), Some(i32::MAX));
    assert_eq!(i32::cast_from(f64_of(2147483648.0)), None);
    assert_eq!(u64::cast_from(f64_of(18446744073709551616.0)), Some(u64::MAX));
}

#[test]
fn float_to_int_matches_checked_native_cast() {
    let values: Vec<f64> = vec![
        0.0, -0.0, 0.5, -0.5, 1.0, -1.0, 126.9, 127.0, 128.0, -128.0, -129.0, 255.0, 256.0, 65535.5,
        2147483647.0, 2147483648.0, -2147483648.0, -2147483649.0, 4294967295.0, 4294967296.0,
        9.2e18, 9.3e18, -9.3e18, 1.8e19, 1.9e19, 1e300, f64::MIN_POSITIVE, 5e-324,
    ];
    for v in values {
        let x = f64_of(v);
        let ok = |lo: f64, hi: f64| lo <= v && v <= hi;
        assert_eq!(i8::cast_from(x), if ok(-128.0, 127.0) { Some(v as i8) } else { None });
        assert_eq!(i32::cast_from(x), if ok(i32::MIN as f64, i32::MAX as f64) { Some(v as i32) } else { None });
        assert_eq!(i64::cast_from(x), if ok(i64::MIN as f64, i64::MAX as f64) { Some(v as i64) } else { None });
        assert_eq!(u16::cast_from(x), if ok(0.0, u16::MAX as f64) { Some(v as u16) } else { None });
        assert_eq!(u64::cast_from(x), if ok(0.0, u64::MAX as f64) { Some(v as u64) } else { None });
        let y = v as f32;
        let okf = |lo: f32, hi: f32| lo <= y && y <= hi;
        let xf = f32_of(y);
        assert_eq!(i32::cast_from(xf), if okf(i32::MIN as f32, i32::MAX as f32) { Some(y as i32) } else { None });
        assert_eq!(u32::cast_from(xf), if okf(0.0, u32::MAX as f32) { Some(y as u32) } else { None });
    }
}

#[test]
fn float_narrowing() {
    let huge: f64 = "1.0e309".parse().unwrap();
    assert_eq!(F32::cast_from(f64_of(huge)), None);
    assert_eq!(F32::cast_from(f64_of(1.0)).map(native_f32), Some(1.0f32));
    assert_eq!(F32::cast_from(f64_of(1.0e39)), None);
    assert_eq!(F32::cast_from(f64_of(-1.0e39)), None);
    assert_eq!(F32::cast_from(f64_of(f32::MAX as f64)).map(native_f32), Some(f32::MAX));
    assert_eq!(F32::cast_from(f64_of(f64::NEG_INFINITY)), None);
    let nan = F32::cast_from(f64_of(f64::NAN)).unwrap();
    assert!(native_f32(nan).is_nan());
    for v in [0.1f64, -0.0, 1e-40, 1e-46, 3.4e38, -2.5e-39, 123456789.123, 1e-45, 7e-46] {
        assert_eq!(F32::cast_from(f64_of(v)).unwrap().to_bits(), (v as f32).to_bits(), "{}", v);
    }
}

#[test]
fn float_widening() {
    for v in [0.1f32, -0.0, 1e-40, f32::MAX, f32::MIN_POSITIVE, 1e-45, -3.75, f32::INFINITY, f32::NEG_INFINITY] {
        assert_eq!(F64::cast_from(f32_of(v)).unwrap().to_bits(), (v as f64).to_bits(), "{}", v);
    }
    let nan = F64::cast_from(f32_of(f32::NAN)).unwrap();
    assert!(native_f64(nan).is_nan());
}

#[test]
fn nan_passes_through_narrowing() {
    let quiet = F32::cast_from(f64_of(f64::NAN)).unwrap();
    assert!(native_f32(quiet).is_nan());
    let negative = F32::cast_from(F64::from_bits(0xfff0_0000_0000_0001)).unwrap();
    assert!(native_f32(negative).is_nan());
    assert!(native_f32(negative).is_sign_negative());
    assert_eq!(i32::cast_from(f64_of(f64::NAN)), None);
}

#[test]
fn exact_int_float_round_trip() {
    for v in [0i32, 1, -1, 255, -4096, 16_777_215, -16_777_215, 16_777_216] {
        let f: F32 = v.cast_into().unwrap();
        assert_eq!(i32::cast_from(f), Some(v));
    }
    for v in [i64::MIN + 1, -(1i64 << 53), (1i64 << 53) - 1, 123_456_789_012_345] {
        if v.unsigned_abs() < (1u64 << 53) {
            let f: F64 = v.cast_into().unwrap();
            assert_eq!(i64::cast_from(f), Some(v));
        }
    }
    let f: F32 = u8::MAX.cast_into().unwrap();
    assert_eq!(u8::cast_from(f), Some(u8::MAX));
}
