use frost::utils::compute_ieee745_bias;
use frost::utils::expand_mantissa_to_explicit;
use frost::utils::mask;
use frost::utils::next_msb;
use frost::utils::next_msb128;
use frost::utils::Lfsr;
use frost::Float;
use frost::FP16;
use frost::FP32;
use frost::FP64;

#[test]
fn utils_test_masking() {
    assert_eq!(mask(0), 0x0);
    assert_eq!(mask(1), 0x1);
    assert_eq!(mask(8), 255);
}

#[test]
fn mod_test_masking() {
    assert_eq!(mask(0), 0x0);
    assert_eq!(mask(1), 0x1);
    assert_eq!(mask(8), 255);
}

#[test]
fn test_lfsr_balance() {
    let mut lfsr = Lfsr::new();

    // Count the number of items, and the number of 1s.
    let mut items = 0;
    let mut ones = 0;

    for _ in 0..10000 {
        let mut u = lfsr.get();
        for _ in 0..32 {
            items += 1;
            ones += u & 1;
            u >>= 1;
        }
    }
    // Make sure that we have around 50% 1s and 50% zeros.
    assert!((ones as f64) < (0.55 * items as f64));
    assert!((ones as f64) > (0.45 * items as f64));
}

#[test]
fn test_repetition() {
    let mut lfsr = Lfsr::new();
    let first = lfsr.get();
    let second = lfsr.get();

    // Make sure that the items don't repeat themselves too frequently.
    for _ in 0..30000 {
        assert_ne!(first, lfsr.get());
        assert_ne!(second, lfsr.get());
    }
}

#[test]
fn text_next_msb() {
    assert_eq!(next_msb(0x0), 0);
    assert_eq!(next_msb(0x1), 1);
    assert_eq!(next_msb(0xff), 8);
}

#[test]
fn test_next_msb128_values() {
    assert_eq!(next_msb128(0x0), 0);
    assert_eq!(next_msb128(0x1), 1);
    assert_eq!(next_msb128(1u128 << 127), 128);
    assert_eq!(next_msb128(0xffu128 << 64), 72);
}

#[test]
fn test_expand_mantissa() {
    assert_eq!(expand_mantissa_to_explicit::<8>(0, true), 1 << 63);
    assert_eq!(expand_mantissa_to_explicit::<8>(1, true), 0x8080000000000000);
    assert_eq!(
        expand_mantissa_to_explicit::<32>(0xffffffff, false),
        0x7fffffff80000000
    );
}

#[test]
fn test_compute_bias() {
    assert_eq!(compute_ieee745_bias(5), 15);
    assert_eq!(compute_ieee745_bias(8), 127);
    assert_eq!(compute_ieee745_bias(11), 1023);
}

#[test]
fn setter_test() {
    assert_eq!(FP16::get_bias(), 15);
    assert_eq!(FP32::get_bias(), 127);
    assert_eq!(FP64::get_bias(), 1023);

    let a: Float<6, 10> = Float::new(false, 2, 12);
    let mut b = a;
    b.set_exp(b.get_exp());
    assert_eq!(a.get_exp(), b.get_exp());
}
