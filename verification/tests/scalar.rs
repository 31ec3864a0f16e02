use multiexp::scalar::{same_scalar, window_digit, NUM_BITS};
use pairing::bls12_381::{Fr, FrRepr};
use pairing::{Field, PrimeField};

#[test]
fn digit_of_the_lowest_window() {
    assert_eq!(window_digit(&FrRepr([0b1011_0110, 0, 0, 0]), 0, 3), 0b110);
    assert_eq!(window_digit(&FrRepr([0b1011_0110, 0, 0, 0]), 0, 1), 0);
    assert_eq!(window_digit(&FrRepr([u64::MAX, 7, 0, 0]), 0, 63), u64::MAX >> 1);
}

#[test]
fn digit_of_a_higher_window() {
    assert_eq!(window_digit(&FrRepr([0b1011_0110, 0, 0, 0]), 3, 3), 0b110);
    assert_eq!(window_digit(&FrRepr([0b1011_0110, 0, 0, 0]), 4, 4), 0b1011);
    assert_eq!(window_digit(&FrRepr([0b1011_0110, 0, 0, 0]), 8, 4), 0);
}

#[test]
fn digit_across_two_limbs() {
    let scalar = FrRepr([0x8000_0000_0000_0000, 0b101, 0, 0]);

    assert_eq!(window_digit(&scalar, 63, 4), 0b1011);
    assert_eq!(window_digit(&scalar, 64, 4), 0b101);
    assert_eq!(window_digit(&FrRepr([0, 0, 0, 0x4000_0000_0000_0000]), 252, 3), 0b100);
}

#[test]
fn digit_past_the_last_limb_is_zero() {
    let scalar = FrRepr([u64::MAX, u64::MAX, u64::MAX, u64::MAX]);

    assert_eq!(window_digit(&scalar, 255, 3), 1);
    assert_eq!(window_digit(&scalar, 256, 3), 0);
    assert_eq!(window_digit(&scalar, 1000, 3), 0);
}

#[test]
fn digit_of_width_zero_is_zero() {
    assert_eq!(window_digit(&FrRepr([u64::MAX, 0, 0, 0]), 0, 0), 0);
}

#[test]
fn same_scalar_reads_every_limb() {
    let scalar = FrRepr([1, 2, 3, 4]);

    assert!(same_scalar(&scalar, &FrRepr([1, 2, 3, 4])));
    assert!(!same_scalar(&scalar, &FrRepr([0, 2, 3, 4])));
    assert!(!same_scalar(&scalar, &FrRepr([1, 0, 3, 4])));
    assert!(!same_scalar(&scalar, &FrRepr([1, 2, 0, 4])));
    assert!(!same_scalar(&scalar, &FrRepr([1, 2, 3, 0])));
}

#[test]
fn zero_and_one_of_the_field_are_the_integers() {
    assert!(same_scalar(&Fr::zero().into_repr(), &FrRepr([0, 0, 0, 0])));
    assert!(same_scalar(&Fr::one().into_repr(), &FrRepr([1, 0, 0, 0])));
}

#[test]
fn field_has_255_bits() {
    assert_eq!(NUM_BITS, 255);
    assert_eq!(Fr::NUM_BITS, NUM_BITS);
}
