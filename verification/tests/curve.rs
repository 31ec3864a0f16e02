use multiexp::AffinePoint;
use pairing::bls12_381::{G1Affine, G2Affine, G1, G2};
use pairing::{CurveAffine, CurveProjective};
use rand::Rand;

#[test]
fn identity_is_the_point_at_infinity() {
    assert_eq!(<G1Affine as AffinePoint>::identity(), G1::zero());
    assert_eq!(<G2Affine as AffinePoint>::identity(), G2::zero());
    assert!(CurveProjective::is_zero(&<G1Affine as AffinePoint>::identity()));
    assert!(CurveProjective::is_zero(&<G2Affine as AffinePoint>::identity()));
}

#[test]
fn adding_changes_the_first_point_by_the_second() {
    let rng = &mut rand::thread_rng();
    let first = G1::rand(rng);
    let second = G1::rand(rng);

    let mut sum = first;
    <G1Affine as AffinePoint>::add_assign(&mut sum, &second);

    let mut expected = first;
    CurveProjective::add_assign(&mut expected, &second);
    assert_eq!(sum, expected);
    assert_ne!(sum, first);

    let first = G2::rand(rng);
    let second = G2::rand(rng);
    let mut sum = first;
    <G2Affine as AffinePoint>::add_assign(&mut sum, &second);
    let mut expected = first;
    CurveProjective::add_assign(&mut expected, &second);
    assert_eq!(sum, expected);
    assert_ne!(sum, first);
}

#[test]
fn doubling_adds_a_point_to_itself() {
    let rng = &mut rand::thread_rng();
    let point = G1::rand(rng);

    let mut doubled = point;
    <G1Affine as AffinePoint>::double(&mut doubled);

    let mut expected = point;
    CurveProjective::add_assign(&mut expected, &point);
    assert_eq!(doubled, expected);
    assert_ne!(doubled, point);

    let point = G2::rand(rng);
    let mut doubled = point;
    <G2Affine as AffinePoint>::double(&mut doubled);
    let mut expected = point;
    CurveProjective::add_assign(&mut expected, &point);
    assert_eq!(doubled, expected);
    assert_ne!(doubled, point);
}

#[test]
fn mixed_adding_adds_the_base() {
    let rng = &mut rand::thread_rng();
    let point = G1::rand(rng);
    let base = G1::rand(rng).into_affine();

    let mut sum = point;
    <G1Affine as AffinePoint>::add_assign_mixed(&mut sum, &base);

    let mut expected = point;
    CurveProjective::add_assign(&mut expected, &base.into_projective());
    assert_eq!(sum, expected);
    assert_ne!(sum, point);

    let point = G2::rand(rng);
    let base = G2::rand(rng).into_affine();
    let mut sum = point;
    <G2Affine as AffinePoint>::add_assign_mixed(&mut sum, &base);
    let mut expected = point;
    CurveProjective::add_assign(&mut expected, &base.into_projective());
    assert_eq!(sum, expected);
    assert_ne!(sum, point);
}

#[test]
fn only_the_point_at_infinity_is_at_infinity() {
    let rng = &mut rand::thread_rng();

    assert!(G1Affine::zero().is_infinity());
    assert!(!G1Affine::one().is_infinity());
    assert!(!G1::rand(rng).into_affine().is_infinity());
    assert!(G2Affine::zero().is_infinity());
    assert!(!G2Affine::one().is_infinity());
    assert!(!G2::rand(rng).into_affine().is_infinity());
}

#[test]
fn sums_start_at_infinity_and_leave_it() {
    let rng = &mut rand::thread_rng();
    let start = <G1Affine as AffinePoint>::identity();
    assert!(<G1Affine as AffinePoint>::is_zero_sum(&start));
    assert!(!<G1Affine as AffinePoint>::is_zero_sum(&G1::rand(rng)));
    assert!(!<G1Affine as AffinePoint>::is_zero_sum(&G1::one()));

    let mut sum = start;
    <G1Affine as AffinePoint>::add_assign_mixed(&mut sum, &G1Affine::one());
    assert!(!<G1Affine as AffinePoint>::is_zero_sum(&sum));

    let start = <G2Affine as AffinePoint>::identity();
    assert!(<G2Affine as AffinePoint>::is_zero_sum(&start));
    assert!(!<G2Affine as AffinePoint>::is_zero_sum(&G2::rand(rng)));
    assert!(!<G2Affine as AffinePoint>::is_zero_sum(&G2::one()));
}
