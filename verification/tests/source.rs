use std::sync::Arc;

use multiexp::{Source, SourceBuilder, SynthesisError};
use pairing::bls12_381::{G1Affine, G1};
use pairing::{CurveAffine, CurveProjective};
use rand::Rand;

fn random_points(count: usize) -> Arc<Vec<G1Affine>> {
    let rng = &mut rand::thread_rng();
    Arc::new((0..count).map(|_| G1::rand(rng).into_affine()).collect())
}

#[test]
fn built_source_starts_at_the_builder_position() {
    let points = random_points(3);
    let builder = (points.clone(), 1);

    let mut source = builder.new();
    assert!(Arc::ptr_eq(&source.0, &builder.0));
    assert_eq!(source.1, 1);
    let mut acc = G1::zero();
    source.add_assign_mixed(&mut acc).unwrap();

    assert_eq!(acc, points[1].into_projective());
    assert_eq!(source.1, 2);

    let mut again = builder.new();
    let mut other = G1::zero();
    again.add_assign_mixed(&mut other).unwrap();
    assert_eq!(other, points[1].into_projective());
}

#[test]
fn consuming_adds_the_next_base_and_moves_on() {
    let points = random_points(2);
    let mut source = (points.clone(), 0);
    let mut acc = G1::zero();

    assert_eq!(source.add_assign_mixed(&mut acc), Ok(()));
    assert_eq!(source.add_assign_mixed(&mut acc), Ok(()));

    let mut expected = points[0].into_projective();
    expected.add_assign_mixed(&points[1]);
    assert_eq!(acc, expected);
    assert_eq!(source.1, 2);
}

#[test]
fn consuming_past_the_end_exhausts_the_source() {
    let points = random_points(1);
    let mut source = (points, 1);
    let mut acc = G1::zero();

    assert_eq!(source.add_assign_mixed(&mut acc), Err(SynthesisError::SourceExhausted));
    assert_eq!(acc, G1::zero());
    assert_eq!(source.1, 1);
}

#[test]
fn consuming_the_identity_is_rejected() {
    let mut source = (Arc::new(vec![G1Affine::zero()]), 0);
    let mut acc = G1::one();

    assert_eq!(source.add_assign_mixed(&mut acc), Err(SynthesisError::IdentityPoint));
    assert_eq!(acc, G1::one());
    assert_eq!(source.1, 0);
}

#[test]
fn skipping_moves_on_without_reading() {
    let mut source = (Arc::new(vec![G1Affine::zero(), G1Affine::one()]), 0);

    assert_eq!(source.skip(1), Ok(()));
    assert_eq!(source.1, 1);

    let mut acc = G1::zero();
    assert_eq!(source.add_assign_mixed(&mut acc), Ok(()));
    assert_eq!(acc, G1::one());
}

#[test]
fn skipping_more_than_is_left_exhausts_the_source() {
    let points = random_points(3);
    let mut source = (points, 2);

    assert_eq!(source.skip(2), Err(SynthesisError::SourceExhausted));
    assert_eq!(source.1, 2);
    assert_eq!(source.skip(1), Ok(()));
    assert_eq!(source.skip(1), Err(SynthesisError::SourceExhausted));
}

#[test]
fn skipping_nothing_at_the_end_succeeds() {
    let points = random_points(1);
    let mut source = (points, 1);

    assert_eq!(source.skip(0), Ok(()));
    assert_eq!(source.1, 1);
}

#[test]
fn sources_of_one_builder_advance_on_their_own() {
    let points = random_points(3);
    let builder = (points.clone(), 0);

    let mut first = builder.new();
    let mut second = builder.new();
    assert_eq!(first.skip(2), Ok(()));

    assert_eq!(first.1, 2);
    assert_eq!(second.1, 0);
    assert_eq!(builder.1, 0);

    let mut acc = G1::zero();
    assert_eq!(second.add_assign_mixed(&mut acc), Ok(()));
    assert_eq!(acc, points[0].into_projective());
    assert_eq!(first.1, 2);
}
