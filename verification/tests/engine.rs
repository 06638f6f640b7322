use frost::bigint::add_carry;
use frost::bigint::classify_loss;
use frost::bigint::mul_wide;
use frost::bigint::shl128;
use frost::bigint::shr128_loss;
use frost::bigint::sub_borrow;
use frost::LossFraction;

#[test]
fn test_add_carry() {
    assert_eq!(add_carry(1, 2), (3, false));
    assert_eq!(add_carry(u128::MAX, 1), (0, true));
    assert_eq!(add_carry(u128::MAX, u128::MAX), (u128::MAX - 1, true));
}

#[test]
fn test_sub_borrow() {
    assert_eq!(sub_borrow(5, 3), (2, false));
    assert_eq!(sub_borrow(3, 5), (u128::MAX - 1, true));
}

#[test]
fn test_shl128_full_width() {
    assert_eq!(shl128(1, 3), 8);
    assert_eq!(shl128(1, 127), 1u128 << 127);
    assert_eq!(shl128(u128::MAX, 128), 0);
    assert_eq!(shl128(u128::MAX, 200), 0);
}

#[test]
fn test_shr128_loss_classification() {
    // Shifting out nothing is exact; the discarded bits classify against
    // half of the retained unit.
    assert_eq!(shr128_loss(0b1000, 3, LossFraction::ExactlyZero), (1, LossFraction::ExactlyZero));
    assert_eq!(shr128_loss(0b1100, 3, LossFraction::ExactlyZero), (1, LossFraction::ExactlyHalf));
    assert_eq!(shr128_loss(0b1101, 3, LossFraction::ExactlyZero), (1, LossFraction::MoreThanHalf));
    assert_eq!(shr128_loss(0b1010, 3, LossFraction::ExactlyZero), (1, LossFraction::LessThanHalf));
    assert_eq!(
        shr128_loss(0b1100, 3, LossFraction::LessThanHalf),
        (1, LossFraction::MoreThanHalf)
    );
    assert_eq!(shr128_loss(1, 200, LossFraction::ExactlyZero), (0, LossFraction::LessThanHalf));
    assert_eq!(shr128_loss(1u128 << 127, 128, LossFraction::ExactlyZero), (
        0,
        LossFraction::ExactlyHalf,
    ));
}

#[test]
fn test_classify_loss() {
    assert_eq!(classify_loss(0, 4, LossFraction::ExactlyZero), LossFraction::ExactlyZero);
    assert_eq!(classify_loss(0, 4, LossFraction::ExactlyHalf), LossFraction::LessThanHalf);
    assert_eq!(classify_loss(4, 4, LossFraction::ExactlyZero), LossFraction::ExactlyHalf);
    assert_eq!(classify_loss(4, 4, LossFraction::LessThanHalf), LossFraction::MoreThanHalf);
    assert_eq!(classify_loss(5, 4, LossFraction::ExactlyZero), LossFraction::MoreThanHalf);
    assert_eq!(classify_loss(3, 4, LossFraction::ExactlyZero), LossFraction::LessThanHalf);
}

#[test]
fn test_mul_wide() {
    assert_eq!(mul_wide(0, 0), (0, 0));
    assert_eq!(mul_wide(1, u128::MAX), (0, u128::MAX));
    assert_eq!(mul_wide(1u128 << 64, 1u128 << 64), (1, 0));
    assert_eq!(mul_wide(u128::MAX, u128::MAX), (u128::MAX - 1, 1));
    assert_eq!(mul_wide(1u128 << 127, 2), (1, 0));
}
