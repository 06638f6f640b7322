use frost::Float;
use frost::FP128;
use frost::FP16;
use frost::FP32;
use frost::FP64;

fn fp32_of(f: f32) -> FP32 {
    FP32::from_bits(f.to_bits() as u64)
}

fn fp64_of(f: f64) -> FP64 {
    FP64::from_bits(f.to_bits())
}

fn as_f32(x: &FP32) -> f32 {
    f32::from_bits(x.as_native_float() as u32)
}

fn as_f64(x: &FP64) -> f64 {
    f64::from_bits(x.as_native_float())
}

fn fp64_as_f32(x: &FP64) -> f32 {
    let b: FP32 = x.cast();
    as_f32(&b)
}

fn fp32_as_f64(x: &FP32) -> f64 {
    let b: FP64 = x.cast();
    as_f64(&b)
}

#[test]
fn test_round_trip_native_float_conversion() {
    let f = f32::from_bits(0x41700000);
    let a = fp32_of(f);
    assert_eq!(f, as_f32(&a));

    let pi = 355. / 113.;
    let a = fp64_of(pi);
    assert_eq!(pi, as_f64(&a));

    let a_float = f32::from_bits(0x3f8fffff);
    let a: FP64 = fp32_of(a_float).cast();
    let b: FP32 = a.cast();
    assert_eq!(fp64_as_f32(&a), a_float);
    assert_eq!(as_f32(&b), a_float);

    let f = f32::from_bits(0x000000);
    let a = fp32_of(f);
    assert_eq!(a.is_normal(), false);
    assert_eq!(f, as_f32(&a));
}

#[test]
fn test_bits_round_trip_exhaustive() {
    // Round trip every pattern in the top 16 bits of the 32-bit encoding,
    // NaNs and infinities and subnormals included.
    for i in 0..(1u64 << 16) {
        let b = i << 16;
        let a = FP32::from_bits(b);
        assert_eq!(a.as_native_float(), b);
    }
}

#[test]
fn test_scenario_from_bits() {
    // Decoding a fixed pattern and encoding it again returns the pattern.
    let a = FP32::from_bits(0x41700000);
    assert_eq!(a.as_native_float(), 0x41700000);
}

#[test]
fn test_scenario_overflow_to_infinity() {
    // 65520 exceeds the largest finite value of the 5/10 configuration
    // (65504) and rounds up past it, so it must normalize to infinity.
    let a = FP16::from_u64(65520);
    assert!(a.is_inf());
    assert!(!a.is_negative());
}

#[test]
fn test_conversion_wide_range() {
    for i in 0..(1u32 << 16) {
        let val = f32::from_bits(i << 16);
        let a: FP64 = fp32_of(val).cast();
        let b: FP32 = a.cast();
        let res = as_f32(&b);
        assert_eq!(res.to_bits(), (i << 16));
    }
}

#[test]
fn constructor_test() {
    let values: [u32; 5] = [0x3f8fffff, 0x40800000, 0x3f000000, 0xc60b40ec, 0xbc675793];

    for i in 0..5 {
        let output = f32::from_bits(values[i]);
        let a: FP64 = fp32_of(output).cast();
        let b: FP32 = a.cast();
        assert_eq!(fp64_as_f32(&a), output);
        assert_eq!(as_f32(&b), output);
    }
}

#[test]
fn test_from_integers() {
    assert_eq!(as_f64(&FP64::from_i64(0)), 0.);

    for i in -100..100 {
        let a = FP64::from_i64(i);
        let b = fp64_of(i as f64);
        assert_eq!(as_f64(&a), as_f64(&b));
    }
}

#[test]
fn test_cast_from_integers() {
    let pi = 355. / 133.;
    let e = 193. / 71.;

    assert_eq!(as_f32(&FP32::from_i64(1 << 32)), (1u64 << 32) as f32);
    assert_eq!(as_f32(&FP32::from_i64(1 << 34)), (1u64 << 34) as f32);
    let p32: FP32 = fp64_of(pi).cast();
    assert_eq!(as_f32(&p32), pi as f32);
    let e32: FP32 = fp64_of(e).cast();
    assert_eq!(as_f32(&e32), e as f32);
    assert_eq!(as_f32(&FP32::from_u64(8388610)), 8388610 as f32);

    for i in 0..(1u64 << 16) {
        assert_eq!(as_f32(&FP32::from_u64(i << 12)), (i << 12) as f32);
    }

    let h = |v: i64| -> f64 {
        let a = FP16::from_i64(v);
        let b: FP64 = a.cast();
        as_f64(&b)
    };
    assert_eq!(h(65500), 65504.0);
    assert_eq!(h(65504), 65504.0);
    assert_eq!(h(65519), 65504.0);
    assert_eq!(h(65520), f64::INFINITY);
    assert_eq!(h(65536), f64::INFINITY);

    for i in -100..100 {
        let a = FP32::from_i64(i);
        let b: FP32 = fp64_of(i as f64).cast();
        assert_eq!(as_f32(&a), as_f32(&b));
    }
}

#[test]
fn test_cast_zero_nan_inf() {
    assert!(as_f64(&FP64::nan(true)).is_nan());
    assert_eq!(as_f64(&FP64::zero(false)), 0.0);
    assert_eq!(as_f64(&FP64::zero(true)), -0.0);
    assert!(as_f64(&FP64::zero(true)).is_sign_negative());

    assert!(FP64::nan(true).is_nan());
    assert!(FP64::inf(true).is_inf());
    {
        let a = fp32_of(f32::from_bits(0x3f8fffff));
        assert!(!a.is_inf());
        assert!(!a.is_nan());
        assert!(!a.is_negative());
    }
    {
        let a = fp32_of(f32::from_bits(0xf48fffff));
        assert!(!a.is_inf());
        assert!(!a.is_nan());
        assert!(a.is_negative());
    }
    {
        let a = fp32_of(f32::from_bits(0xff800000)); // -Inf
        assert!(a.is_inf());
        assert!(!a.is_nan());
        assert!(a.is_negative());
    }
    {
        let a = fp32_of(f32::from_bits(0xffc00000)); // -Nan.
        assert!(!a.is_inf());
        assert!(a.is_nan());
        assert!(a.is_negative());
    }
    {
        let mut a = fp64_of(f64::from_bits(0xffffffffu64 << 32));
        assert!(!a.is_inf());
        assert!(a.is_nan());
        a.set_mantissa(0);
        assert!(a.is_inf());
        assert!(!a.is_nan());
        assert!(a.is_negative());
    }
    {
        // Check that casting propagates inf/nan.
        let a = fp32_of(f32::from_bits(0xff800000)); // -Inf
        let b: FP64 = a.cast();
        assert!(b.is_inf());
        assert!(!b.is_nan());
        assert!(b.is_negative());
    }
}

#[test]
fn test_cast_down_easy() {
    // Check that we can cast the numbers down, matching the hardware casting.
    for v in [0.3, 0.1, 14151241515., 14151215., 0.0000000001, 1000000000.] {
        let res = fp64_as_f32(&fp64_of(v));
        assert_eq!(as_f64(&fp64_of(v)).to_bits(), v.to_bits());
        assert!(res == v as f32);
    }
}

#[test]
fn test_load_store_all_f32() {
    // Try to load and store normals and denormals.
    for i in 0..(1u64 << 16) {
        let in_f = f32::from_bits((i << 10) as u32);
        let fp_f = fp32_of(in_f);
        let out_f = as_f32(&fp_f);
        assert_eq!(in_f.is_nan(), out_f.is_nan());
        assert_eq!(in_f.is_infinite(), out_f.is_infinite());
        assert!(in_f.is_nan() || (in_f.to_bits() == out_f.to_bits()));
    }
}

#[test]
fn test_cast_widen_round_trip() {
    // Widening a value and narrowing it back reproduces the bit pattern,
    // for normals, subnormals, zeros, infinities, and quiet NaN payloads.
    for b in [
        0x41700000u64,
        0x00000001,
        0x00000000,
        0x80000000,
        0x7f800000,
        0xff800000,
        0x7fc00001,
        0x00800000,
        0x3f800001,
        0x7f7fffff,
    ] {
        let a = FP32::from_bits(b);
        let wide: FP128 = a.cast();
        let back: FP32 = wide.cast();
        assert_eq!(back.as_native_float(), b);
    }
}

#[test]
fn test_round_trip_native_float_cast() {
    let f = f32::from_bits(0x41700000);
    let a = fp32_of(f);
    assert_eq!(f, as_f32(&a));

    let pi = 355. / 113.;
    let a = fp64_of(pi);
    assert_eq!(pi, as_f64(&a));

    assert!(fp64_of(f64::NAN).is_nan());
    assert!(!fp64_of(f64::NAN).is_inf());
    assert!(fp64_of(f64::INFINITY).is_inf());
    assert!(!fp64_of(f64::INFINITY).is_nan());
    assert!(fp64_of(f64::NEG_INFINITY).is_inf());

    let a_float = f32::from_bits(0x3f8fffff);
    let a: FP64 = fp32_of(a_float).cast();
    let b: FP32 = a.cast();
    assert_eq!(fp64_as_f32(&a), a_float);
    assert_eq!(as_f32(&b), a_float);

    let f = f32::from_bits(0x000000);
    let a = fp32_of(f);
    assert!(!a.is_normal());
    assert_eq!(f, as_f32(&a));
}

#[test]
fn test_cast_easy_ctor() {
    let values = [0x3f8fffffu32, 0x40800000, 0x3f000000, 0xc60b40ec, 0xbc675793];

    for v in values {
        let output = f32::from_bits(v);
        let a: FP64 = fp32_of(output).cast();
        let b: FP32 = a.cast();
        assert_eq!(fp64_as_f32(&a), output);
        assert_eq!(as_f32(&b), output);
    }
}

#[test]
fn test_cast_down_complex() {
    // Try casting a bunch of difficult values such as inf, nan, denormals, etc.
    let specials: [f64; 20] = [
        -f64::NAN,
        f64::NAN,
        f64::INFINITY,
        f64::NEG_INFINITY,
        f64::EPSILON,
        -f64::EPSILON,
        0.000000000000000000000000000000000000001,
        f64::MIN,
        f64::MAX,
        std::f64::consts::PI,
        std::f64::consts::LN_2,
        std::f64::consts::SQRT_2,
        std::f64::consts::E,
        0.0,
        -0.0,
        10.,
        -10.,
        -0.00001,
        0.1,
        355. / 113.,
    ];
    for v in specials {
        let res = fp64_as_f32(&fp64_of(v));
        assert_eq!(as_f64(&fp64_of(v)).to_bits(), v.to_bits());
        assert_eq!(v.is_nan(), res.is_nan());
        assert!(v.is_nan() || res == v as f32);
    }
}

#[test]
fn test_nan_inf() {
    assert_eq!(as_f64(&FP64::zero(false)), 0.0);
    assert_eq!(as_f64(&FP64::zero(true)), -0.0);

    {
        let a = fp32_of(f32::from_bits(0x3f8fffff));
        assert!(!a.is_inf());
        assert!(!a.is_nan());
        assert!(!a.is_negative());
    }
    {
        let a = fp32_of(f32::from_bits(0xf48fffff));
        assert!(!a.is_inf());
        assert!(!a.is_nan());
        assert!(a.is_negative());
    }
    {
        let a = fp32_of(f32::from_bits(0xff800000)); // -Inf
        assert!(a.is_inf());
        assert!(!a.is_nan());
        assert!(a.is_negative());
    }
    {
        let a = fp32_of(f32::from_bits(0xffc00000)); // -Nan.
        assert!(!a.is_inf());
        assert!(a.is_nan());
        assert!(a.is_negative());
    }
    {
        let mut a = fp64_of(f64::from_bits(0xffffffffu64 << 32));
        assert!(!a.is_inf());
        assert!(a.is_nan());
        a.set_mantissa(0);
        assert!(a.is_inf());
        assert!(!a.is_nan());
        assert!(a.is_negative());
    }
    {
        // Check that casting propagates inf/nan.
        let a = fp32_of(f32::from_bits(0xff800000)); // -Inf
        let b: FP64 = a.cast();
        assert!(b.is_inf());
        assert!(!b.is_nan());
        assert!(b.is_negative());
    }
}
