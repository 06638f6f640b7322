use frost::FP64;

fn fp(f: f64) -> FP64 {
    FP64::from_bits(f.to_bits())
}

fn back(x: &FP64) -> f64 {
    f64::from_bits(x.as_native_float())
}

#[test]
fn test_addition() {
    let add_helper = |a: f64, b: f64| -> f64 {
        let a = fp(a);
        let b = fp(b);
        let c = frost::add(a, b);
        back(&c)
    };

    assert_eq!(add_helper(1., 1.), 2.);
    assert_eq!(add_helper(8., 4.), 12.);
    assert_eq!(add_helper(8., 4.), 12.);
    assert_eq!(add_helper(128., 2.), 130.);
    assert_eq!(add_helper(128., -8.), 120.);
    assert_eq!(add_helper(64., -60.), 4.);
    assert_eq!(add_helper(69., -65.), 4.);
    assert_eq!(add_helper(69., 69.), 138.);
    assert_eq!(add_helper(69., 1.), 70.);
    assert_eq!(add_helper(-128., -8.), -136.);
    assert_eq!(add_helper(64., -65.), -1.);
    assert_eq!(add_helper(-64., -65.), -129.);
    assert_eq!(add_helper(-15., -15.), -30.);

    assert_eq!(add_helper(-15., 15.), 0.);

    for i in -4..15 {
        for j in i..15 {
            assert_eq!(
                add_helper(f64::from(j), f64::from(i)),
                f64::from(i) + f64::from(j)
            );
        }
    }
}

#[test]
fn test_add_native_agreement() {
    // Internal addition matches native floating addition bit for bit over
    // all integer pairs in [-100, 100], and is commutative there.
    for i in -100i64..=100 {
        for j in -100i64..=100 {
            let a = FP64::from_i64(i);
            let b = FP64::from_i64(j);
            let ab = a.add(b);
            let ba = b.add(a);
            let native = (i as f64) + (j as f64);
            assert_eq!(back(&ab).to_bits(), native.to_bits());
            assert_eq!(ab.as_native_float(), ba.as_native_float());
        }
    }
}

#[test]
fn test_nan_inf_propagation() {
    // Any operator on a NaN yields a NaN; infinity absorbs finite
    // operands; opposite infinities cancel to a NaN.
    let nan = FP64::nan(false);
    let inf = FP64::inf(false);
    let ninf = FP64::inf(true);
    let five = FP64::from_u64(5);

    assert!(nan.add(five).is_nan());
    assert!(five.sub(nan).is_nan());
    assert!(nan.mul(five).is_nan());
    assert!(five.div(nan).is_nan());
    assert!(nan.sqrt().is_nan());
    assert!(five.rem(nan).is_nan());

    assert!(inf.add(five).is_inf());
    assert!(five.add(inf).is_inf());
    assert!(inf.sub(inf).is_nan());
    assert!(inf.add(ninf).is_nan());
    assert!(inf.add(inf).is_inf());
}

#[test]
fn test_mul_div_native_agreement() {
    for i in -40i64..=40 {
        for j in 1i64..=40 {
            let a = FP64::from_i64(i);
            let b = FP64::from_i64(j);
            let m = a.mul(b);
            let d = a.div(b);
            assert_eq!(back(&m).to_bits(), ((i * j) as f64).to_bits());
            assert_eq!(back(&d).to_bits(), ((i as f64) / (j as f64)).to_bits());
        }
    }
}

#[test]
fn test_compare() {
    let a = fp(1.5);
    let b = fp(2.5);
    let n = FP64::nan(false);
    assert!(a.lt(&b));
    assert!(!b.lt(&a));
    assert!(b.gt(&a));
    assert!(a.le(&a));
    assert!(a.ge(&a));
    assert!(!n.lt(&a) && !a.lt(&n) && !n.le(&n));
    assert!(!fp(0.0).lt(&fp(-0.0)) && !fp(-0.0).lt(&fp(0.0)));
    assert!(fp(-1.0).lt(&fp(-0.5)));
    assert!(fp(-0.5).gt(&fp(-1.0)));
}
