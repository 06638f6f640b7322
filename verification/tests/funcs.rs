use frost::utils::Lfsr;
use frost::RoundingMode;
use frost::FP128;
use frost::FP32;
use frost::FP64;

fn fp(f: f64) -> FP64 {
    FP64::from_bits(f.to_bits())
}

fn back(x: &FP64) -> f64 {
    f64::from_bits(x.as_native_float())
}

fn back128(x: &FP128) -> f64 {
    let n: FP64 = x.cast();
    back(&n)
}

fn special_values() -> [f64; 20] {
    [
        -f64::NAN,
        f64::NAN,
        f64::INFINITY,
        f64::NEG_INFINITY,
        f64::EPSILON,
        -f64::EPSILON,
        0.000000000000000000000000000000000000001,
        f64::MIN,
        f64::MAX,
        std::f64::consts::PI,
        std::f64::consts::LN_2,
        std::f64::consts::SQRT_2,
        std::f64::consts::E,
        0.0,
        -0.0,
        10.,
        -10.,
        -0.00001,
        0.1,
        355. / 113.,
    ]
}

#[test]
fn test_sqrt() {
    // Try a few power-of-two values.
    for i in 0..256u64 {
        let v16 = FP64::from_u64(i * i);
        assert_eq!(back(&v16.sqrt()), i as f64);
    }

    // Test the category and value of the different special values (inf, zero,
    // correct sign, etc).
    for v_f64 in special_values() {
        let vf = fp(v_f64);
        assert_eq!(vf.sqrt().is_inf(), v_f64.sqrt().is_infinite());
        assert_eq!(vf.sqrt().is_nan(), v_f64.sqrt().is_nan());
        assert_eq!(vf.sqrt().is_negative(), v_f64.sqrt().is_sign_negative());
    }

    // Test precomputed values.
    let check = |inp: f64, res: f64| {
        assert_eq!(back(&fp(inp).sqrt()), res);
    };
    check(1.5, 1.224744871391589);
    check(2.3, 1.51657508881031);
    check(6.7, 2.588435821108957);
    check(7.9, 2.8106938645110393);
    check(11.45, 3.383784863137726);
    check(1049.3, 32.39290045673589);
    check(90210.7, 300.35096137685326);
    check(199120056003.73413, 446228.70369770494);
    check(0.6666666666666666, 0.816496580927726);
    check(0.4347826086956522, 0.6593804733957871);
    check(0.14925373134328357, 0.3863337046431279);
    check(0.12658227848101264, 0.35578403348241);
    check(0.08733624454148473, 0.29552706228277087);
    check(0.0009530162965786716, 0.030870962028719993);
    check(1.1085159520988087e-5, 0.00332943831914455);
    check(5.0120298432056786e-8, 0.0002238756316173263);
}

#[test]
fn test_min_max() {
    let check = |v0: f64, v1: f64| {
        // Min.
        let correct = v0.min(v1);
        let test = back(&fp(v0).min(fp(v1)));
        assert_eq!(test.is_nan(), correct.is_nan());
        if !correct.is_nan() {
            assert_eq!(correct, test);
        }
        // Max.
        let correct = v0.max(v1);
        let test = back(&fp(v0).max(fp(v1)));
        assert_eq!(test.is_nan(), correct.is_nan());
        if !correct.is_nan() {
            assert_eq!(correct, test);
        }
    };

    // Test a bunch of special values (Inf, Epsilon, Nan, (+-)Zeros).
    for v0 in special_values() {
        for v1 in special_values() {
            check(v0, v1);
        }
    }

    let mut lfsr = Lfsr::new();

    for _ in 0..100 {
        let v0 = f64::from_bits(lfsr.get64());
        let v1 = f64::from_bits(lfsr.get64());
        check(v0, v1);
    }
}

#[test]
fn test_min_max_ieee_edges() {
    // min(NaN, 5) picks the number; max(-0, +0) picks the positive zero.
    let five = FP64::from_u64(5);
    let m = FP64::nan(false).min(five);
    assert_eq!(back(&m), 5.0);
    let z = fp(-0.0).max(fp(0.0));
    assert_eq!(back(&z).to_bits(), 0.0f64.to_bits());
    let z2 = fp(-0.0).min(fp(0.0));
    assert_eq!(back(&z2).to_bits(), (-0.0f64).to_bits());
}

#[test]
fn test_abs() {
    for v in special_values() {
        if !v.is_nan() {
            assert_eq!(back(&fp(v).abs()), v.abs());
        }
    }
}

#[test]
fn test_pi() {
    assert_eq!(back128(&FP128::pi()), std::f64::consts::PI);
}

#[test]
fn test_e() {
    assert_eq!(back128(&FP128::e()), std::f64::consts::E);
    let e32 = FP32::e();
    let wide: FP64 = e32.cast();
    assert_eq!(f64::from_bits(wide.as_native_float()) as f32, std::f32::consts::E);
}

#[test]
fn test_scale() {
    let x = FP64::from_u64(1);
    let y = x.scale(1, RoundingMode::NearestTiesToEven);
    assert_eq!(back(&y), 2.0);
    let z = x.scale(-1, RoundingMode::NearestTiesToEven);
    assert_eq!(back(&z), 0.5);
}

#[test]
fn test_rem() {
    let check_two_numbers = |v0: f64, v1: f64| {
        let f0 = fp(v0);
        let f1 = fp(v1);
        let r0 = v0 % v1;
        let r1 = back(&f0.rem(f1));
        assert_eq!(r0.is_nan(), r1.is_nan());
        if !r0.is_nan() {
            assert_eq!(r0, r1);
        }
    };

    check_two_numbers(1.4, 2.5);
    check_two_numbers(2.4, 1.5);
    check_two_numbers(1000., std::f64::consts::PI);
    check_two_numbers(10000000000000000000., std::f64::consts::PI / 1000.);
    check_two_numbers(10000000000000000000., std::f64::consts::PI);
    check_two_numbers(100., std::f64::consts::PI);
    check_two_numbers(100., -std::f64::consts::PI);
    check_two_numbers(0., 10.);
    check_two_numbers(std::f64::consts::PI, 10.0);

    // Test a bunch of random values:
    let mut lfsr = Lfsr::new();
    for _ in 0..5000 {
        let v0 = f64::from_bits(lfsr.get64());
        let v1 = f64::from_bits(lfsr.get64());
        check_two_numbers(v0, v1);
    }

    // Test the hard cases:
    for v0 in special_values() {
        for v1 in special_values() {
            check_two_numbers(v0, v1);
        }
    }
}

#[test]
fn test_sin_taylor() {
    for i in -10..100 {
        let f0 = i as f64;
        let r0 = f0.sin();
        let w = FP128::from_i64(i);
        let r1 = back128(&w.sin());
        assert_eq!(r0, r1);
    }
}
