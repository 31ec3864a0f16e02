use std::sync::Arc;

use multiexp::{
    join_windows, multiexp, multiexp_from, multiexp_inner, window_above, window_sum,
    window_sum_from, window_width, DensityTracker, FullDensity, SynthesisError,
};
use pairing::bls12_381::{Bls12, Fr, FrRepr, G1Affine, G2Affine, G1, G2};
use pairing::{CurveAffine, CurveProjective, Engine, Field, PrimeField};
use rand::Rand;

fn naive_multiexp<G: CurveAffine>(
    bases: Arc<Vec<G>>,
    exponents: Arc<Vec<<G::Scalar as PrimeField>::Repr>>,
) -> G::Projective {
    assert_eq!(bases.len(), exponents.len());

    let mut acc = G::Projective::zero();

    for (base, exp) in bases.iter().zip(exponents.iter()) {
        acc.add_assign(&base.mul(*exp));
    }

    acc
}

#[test]
fn test_with_bls12() {
    // Drawing a random point and multiplying it directly take some ten
    // milliseconds each where the curve arithmetic is built without optimisation,
    // so the sample is kept to what runs in a few seconds.
    const SAMPLES: usize = 1 << 8;

    let rng = &mut rand::thread_rng();
    let v = Arc::new(
        (0..SAMPLES)
            .map(|_| <Bls12 as Engine>::Fr::rand(rng).into_repr())
            .collect::<Vec<_>>(),
    );
    let g = Arc::new(
        (0..SAMPLES)
            .map(|_| <Bls12 as Engine>::G1::rand(rng).into_affine())
            .collect::<Vec<_>>(),
    );

    let naive = naive_multiexp(g.clone(), v.clone());

    let fast = multiexp((g, 0), FullDensity, v).unwrap();

    assert_eq!(naive, fast);
}

fn random_bases(count: usize) -> Vec<G1Affine> {
    let rng = &mut rand::thread_rng();
    (0..count).map(|_| G1::rand(rng).into_affine()).collect()
}

fn small(value: u64) -> FrRepr {
    FrRepr([value, 0, 0, 0])
}

#[test]
fn two_bases_with_scalars_two_and_three() {
    let bases = random_bases(2);
    let mut expected = bases[0].mul(small(2));
    expected.add_assign(&bases[1].mul(small(3)));

    let got = multiexp(
        (Arc::new(bases), 0),
        FullDensity,
        Arc::new(vec![small(2), small(3)]),
    )
    .unwrap();

    assert_eq!(got, expected);
}

#[test]
fn scalars_zero_and_one_give_the_second_base() {
    let bases = random_bases(2);
    let expected = bases[1].into_projective();

    let got = window_sum(
        &(Arc::new(bases), 0),
        &FullDensity,
        &vec![small(0), small(1)],
        0,
        3,
        true,
    )
    .unwrap();

    assert_eq!(got, expected);
}

#[test]
fn forced_width_two_agrees_with_the_chosen_width() {
    let rng = &mut rand::thread_rng();
    let bases = Arc::new(random_bases(40));
    let exponents: Vec<FrRepr> = (0..40).map(|_| Fr::rand(rng).into_repr()).collect();

    let narrow = multiexp_inner(&(bases.clone(), 0), &FullDensity, &exponents, 0, 2, true).unwrap();
    let chosen = multiexp((bases.clone(), 0), FullDensity, Arc::new(exponents.clone())).unwrap();

    assert_eq!(narrow, chosen);
    assert_eq!(narrow, naive_multiexp(bases, Arc::new(exponents)));
}

#[test]
fn identity_base_with_nonzero_scalar_is_rejected() {
    let mut bases = random_bases(3);
    bases[1] = G1Affine::zero();

    let got = multiexp(
        (Arc::new(bases), 0),
        FullDensity,
        Arc::new(vec![small(5), small(9), small(4)]),
    );

    assert_eq!(got, Err(SynthesisError::IdentityPoint));
}

#[test]
fn too_few_bases_exhaust_the_source() {
    let bases = random_bases(2);

    let got = multiexp(
        (Arc::new(bases), 0),
        FullDensity,
        Arc::new(vec![small(5), small(9), small(4)]),
    );

    assert_eq!(got, Err(SynthesisError::SourceExhausted));
}

#[test]
fn no_scalars_give_the_identity() {
    let got = multiexp((Arc::new(random_bases(2)), 0), FullDensity, Arc::new(vec![])).unwrap();

    assert_eq!(got, G1::zero());
}

#[test]
fn zero_scalar_does_not_read_its_base() {
    let mut bases = random_bases(3);
    let exponents = vec![small(6), small(0), small(11)];
    let before = multiexp(
        (Arc::new(bases.clone()), 0),
        FullDensity,
        Arc::new(exponents.clone()),
    )
    .unwrap();

    bases[1] = G1Affine::zero();
    let after = multiexp((Arc::new(bases.clone()), 0), FullDensity, Arc::new(exponents)).unwrap();

    let mut expected = bases[0].mul(small(6));
    expected.add_assign(&bases[2].mul(small(11)));
    assert_eq!(after, before);
    assert_eq!(after, expected);
}

#[test]
fn scalar_of_one_is_taken_by_the_lowest_window_only() {
    let bases = Arc::new(random_bases(1));
    let exponents = vec![small(1)];

    let taken = window_sum(&(bases.clone(), 0), &FullDensity, &exponents, 0, 3, true).unwrap();
    let passed = window_sum(&(bases.clone(), 0), &FullDensity, &exponents, 3, 3, false).unwrap();

    assert_eq!(taken, bases[0].into_projective());
    assert_eq!(passed, G1::zero());
}

#[test]
fn scalar_of_one_with_identity_base_is_rejected_in_the_lowest_window() {
    let bases = Arc::new(vec![G1Affine::zero()]);
    let exponents = vec![small(1)];

    let lowest = window_sum(&(bases.clone(), 0), &FullDensity, &exponents, 0, 3, true);
    let higher = window_sum(&(bases.clone(), 0), &FullDensity, &exponents, 3, 3, false);

    assert_eq!(lowest, Err(SynthesisError::IdentityPoint));
    assert_eq!(higher, Ok(G1::zero()));
}

#[test]
fn window_takes_the_digit_at_its_bits() {
    let bases = Arc::new(random_bases(2));
    // 40 is 101 000 in binary and 23 is 010 111.
    let exponents = vec![small(40), small(23)];

    let low = window_sum(&(bases.clone(), 0), &FullDensity, &exponents, 0, 3, true).unwrap();
    let high = window_sum(&(bases.clone(), 0), &FullDensity, &exponents, 3, 3, false).unwrap();

    assert_eq!(low, bases[1].mul(small(7)));
    let mut expected = bases[0].mul(small(5));
    expected.add_assign(&bases[1].mul(small(2)));
    assert_eq!(high, expected);
}

#[test]
fn buckets_are_counted_as_often_as_their_digit() {
    let bases = Arc::new(random_bases(4));
    let exponents = vec![small(3), small(7), small(3), small(5)];

    let got = window_sum(&(bases.clone(), 0), &FullDensity, &exponents, 0, 3, true).unwrap();

    let mut expected = G1::zero();
    for (base, exp) in bases.iter().zip(exponents.iter()) {
        expected.add_assign(&base.mul(*exp));
    }
    assert_eq!(got, expected);
}

#[test]
fn joining_doubles_the_higher_window_once_for_each_bit() {
    let rng = &mut rand::thread_rng();
    let this = G1::rand(rng);
    let higher = G1::rand(rng);

    let joined = join_windows::<G1Affine>(&this, higher, 3);

    let mut expected = higher;
    expected.mul_assign(small(8));
    expected.add_assign(&this);
    assert_eq!(joined, expected);
}

#[test]
fn joining_over_no_bits_adds_the_two() {
    let rng = &mut rand::thread_rng();
    let this = G1::rand(rng);
    let higher = G1::rand(rng);

    let joined = join_windows::<G1Affine>(&this, higher, 0);

    let mut expected = higher;
    expected.add_assign(&this);
    assert_eq!(joined, expected);
}

#[test]
fn highest_bit_of_the_field_is_covered() {
    let bases = Arc::new(random_bases(1));
    // Two to the power 254, plus five: below the modulus, with its top bit in the last window.
    let exponents = Arc::new(vec![FrRepr([5, 0, 0, 0x4000_0000_0000_0000])]);

    let got = multiexp((bases.clone(), 0), FullDensity, exponents.clone()).unwrap();

    assert_eq!(got, naive_multiexp(bases, exponents));
}

#[test]
fn inactive_slots_have_no_base() {
    let rng = &mut rand::thread_rng();
    let bases = Arc::new(random_bases(3));
    let exponents: Vec<FrRepr> = (0..5).map(|_| Fr::rand(rng).into_repr()).collect();
    let mut tracker = DensityTracker::new();
    for _ in 0..5 {
        tracker.add_element();
    }
    tracker.inc(0);
    tracker.inc(2);
    tracker.inc(3);

    let got = multiexp((bases.clone(), 0), tracker, Arc::new(exponents.clone())).unwrap();

    let kept = Arc::new(vec![exponents[0], exponents[2], exponents[3]]);
    assert_eq!(got, naive_multiexp(bases.clone(), kept.clone()));
    assert_eq!(got, multiexp((bases, 0), FullDensity, kept).unwrap());
}

#[test]
fn active_slots_beyond_the_bases_exhaust_the_source() {
    let bases = Arc::new(random_bases(2));
    let mut tracker = DensityTracker::new();
    for _ in 0..4 {
        tracker.add_element();
    }
    tracker.inc(0);
    tracker.inc(1);
    tracker.inc(3);

    let got = multiexp(
        (bases, 0),
        tracker,
        Arc::new(vec![small(2), small(0), small(9), small(0)]),
    );

    assert_eq!(got, Err(SynthesisError::SourceExhausted));
}

#[test]
fn bases_start_at_the_given_position() {
    let bases = Arc::new(random_bases(3));

    let got = multiexp((bases.clone(), 1), FullDensity, Arc::new(vec![small(4), small(6)])).unwrap();

    let mut expected = bases[1].mul(small(4));
    expected.add_assign(&bases[2].mul(small(6)));
    assert_eq!(got, expected);
}

#[test]
fn width_is_three_below_thirty_two_scalars() {
    assert_eq!(window_width(0), 3);
    assert_eq!(window_width(1), 3);
    assert_eq!(window_width(31), 3);
}

#[test]
fn width_is_the_logarithm_rounded_up() {
    assert_eq!(window_width(32), 4);
    assert_eq!(window_width(54), 4);
    assert_eq!(window_width(55), 5);
    assert_eq!(window_width(148), 5);
    assert_eq!(window_width(149), 6);
    assert_eq!(window_width(1 << 14), 10);
    assert_eq!(window_width(1 << 22), 16);
    assert_eq!(window_width(u32::MAX as usize), 23);
}

#[test]
fn width_agrees_with_the_floating_point_logarithm() {
    let mut n: usize = 32;
    while n < 50_000_000 {
        let expected = (n as f64).ln().ceil() as u32;
        assert_eq!(window_width(n), expected);
        assert_eq!(window_width(n + 1), ((n + 1) as f64).ln().ceil() as u32);
        n = n + n / 7 + 1;
    }
    for n in 32..70_000usize {
        assert_eq!(window_width(n), (n as f64).ln().ceil() as u32);
    }
}

#[test]
fn many_multiples_of_one_point_sum_up_in_the_field() {
    const SAMPLES: usize = 1 << 12;

    let rng = &mut rand::thread_rng();
    let point = G1::rand(rng).into_affine();

    // The base of slot i is the point taken i + 1 times.
    let mut multiples = Vec::with_capacity(SAMPLES);
    let mut next = point.into_projective();
    for _ in 0..SAMPLES {
        multiples.push(next);
        next.add_assign_mixed(&point);
    }
    G1::batch_normalization(&mut multiples);
    let bases: Vec<G1Affine> = multiples.iter().map(|p| p.into_affine()).collect();

    // The sum of the products is the point taken as often as the sum, in the
    // field, of each scalar times its slot's count.
    let scalars: Vec<Fr> = (0..SAMPLES).map(|_| Fr::rand(rng)).collect();
    let mut total = Fr::zero();
    for (i, scalar) in scalars.iter().enumerate() {
        let mut term = Fr::from_repr(FrRepr([i as u64 + 1, 0, 0, 0])).unwrap();
        term.mul_assign(scalar);
        total.add_assign(&term);
    }
    let expected = point.mul(total.into_repr());

    let exponents: Vec<FrRepr> = scalars.iter().map(|s| s.into_repr()).collect();
    let got = multiexp((Arc::new(bases), 0), FullDensity, Arc::new(exponents)).unwrap();

    assert_eq!(got, expected);
}

#[test]
fn windows_step_by_their_width_up_to_the_last_bit() {
    assert_eq!(window_above(0, 3), Some(3));
    assert_eq!(window_above(249, 3), Some(252));
    assert_eq!(window_above(252, 3), None);
    assert_eq!(window_above(251, 3), Some(254));
    assert_eq!(window_above(254, 3), None);
    assert_eq!(window_above(253, 1), Some(254));
    assert_eq!(window_above(254, 1), None);
    assert_eq!(window_above(0, 255), None);
    assert_eq!(window_above(0, 254), Some(254));
    assert_eq!(window_above(300, 3), None);
    assert_eq!(window_above(7, u32::MAX), None);
}

#[test]
fn points_of_the_second_group_are_multiplied_alike() {
    let rng = &mut rand::thread_rng();
    let bases: Arc<Vec<G2Affine>> = Arc::new((0..5).map(|_| G2::rand(rng).into_affine()).collect());
    let exponents: Arc<Vec<FrRepr>> = Arc::new((0..5).map(|_| Fr::rand(rng).into_repr()).collect());

    let got = multiexp((bases.clone(), 0), FullDensity, exponents.clone()).unwrap();

    assert_eq!(got, naive_multiexp(bases, exponents));
}

#[test]
fn no_scalars_give_the_identity_of_the_second_group() {
    let bases: Arc<Vec<G2Affine>> = Arc::new(vec![]);

    let got = multiexp((bases, 0), FullDensity, Arc::new(vec![])).unwrap();

    assert_eq!(got, G2::zero());
}

#[test]
fn joining_in_the_second_group_doubles_for_each_bit() {
    let rng = &mut rand::thread_rng();
    let this = G2::rand(rng);
    let higher = G2::rand(rng);

    let joined = join_windows::<G2Affine>(&this, higher, 2);

    let mut expected = higher;
    expected.mul_assign(small(4));
    expected.add_assign(&this);
    assert_eq!(joined, expected);
}

#[test]
fn identity_base_of_the_second_group_is_rejected() {
    let rng = &mut rand::thread_rng();
    let bases = Arc::new(vec![G2::rand(rng).into_affine(), G2Affine::zero()]);

    let rejected = multiexp((bases.clone(), 0), FullDensity, Arc::new(vec![small(3), small(2)]));
    let passed = multiexp((bases.clone(), 0), FullDensity, Arc::new(vec![small(3), small(0)]));

    assert_eq!(rejected, Err(SynthesisError::IdentityPoint));
    assert_eq!(passed, Ok(bases[0].mul(small(3))));
}

#[test]
fn width_ten_agrees_with_the_direct_evaluation() {
    const SAMPLES: usize = 1 << 7;

    let rng = &mut rand::thread_rng();
    let exponents: Vec<FrRepr> = (0..SAMPLES).map(|_| Fr::rand(rng).into_repr()).collect();
    let bases = Arc::new(random_bases(SAMPLES));

    // The width that is chosen for two to the power 14 scalars.
    assert_eq!(window_width(1 << 14), 10);
    let got = multiexp_inner(&(bases.clone(), 0), &FullDensity, &exponents, 0, 10, true).unwrap();

    assert_eq!(got, naive_multiexp(bases, Arc::new(exponents)));
}

#[test]
fn identity_under_a_zero_scalar_does_not_hide_the_short_source() {
    let mut bases = random_bases(2);
    bases[1] = G1Affine::zero();

    let got = multiexp(
        (Arc::new(bases), 0),
        FullDensity,
        Arc::new(vec![small(5), small(0), small(4)]),
    );

    assert_eq!(got, Err(SynthesisError::SourceExhausted));
}

#[test]
fn test_speed_with_bn256() {
    let cpus = num_cpus::get();
    // Drawing a random point takes some ten milliseconds where the curve
    // arithmetic is built without optimisation, so the sample is kept small.
    const SAMPLES: usize = 1 << 8;

    let rng = &mut rand::thread_rng();
    let v = Arc::new(
        (0..SAMPLES)
            .map(|_| <Bls12 as Engine>::Fr::rand(rng).into_repr())
            .collect::<Vec<_>>(),
    );
    let g = Arc::new(
        (0..SAMPLES)
            .map(|_| <Bls12 as Engine>::G1::rand(rng).into_affine())
            .collect::<Vec<_>>(),
    );

    let start = std::time::Instant::now();

    let _fast = multiexp((g, 0), FullDensity, v).unwrap();

    let duration_ns = start.elapsed().as_nanos() as f64;
    println!("Elapsed {} ns for {} samples", duration_ns, SAMPLES);
    let time_per_sample = duration_ns / (SAMPLES as f64);
    println!(
        "Tested on {} samples on {} CPUs with {} ns per multiplication",
        SAMPLES, cpus, time_per_sample
    );
}

#[test]
fn shared_density_map_is_taken_as_the_map() {
    let rng = &mut rand::thread_rng();
    let bases = Arc::new(random_bases(2));
    let exponents: Vec<FrRepr> = (0..3).map(|_| Fr::rand(rng).into_repr()).collect();
    let mut tracker = DensityTracker::new();
    for _ in 0..3 {
        tracker.add_element();
    }
    tracker.inc(0);
    tracker.inc(2);

    let got = multiexp((bases.clone(), 0), Arc::new(tracker), Arc::new(exponents.clone())).unwrap();

    let kept = Arc::new(vec![exponents[0], exponents[2]]);
    assert_eq!(got, naive_multiexp(bases, kept));
}

#[test]
fn sums_from_a_given_point_at_infinity_are_the_sums() {
    let rng = &mut rand::thread_rng();
    let bases = Arc::new(random_bases(6));
    let exponents: Vec<FrRepr> = (0..6).map(|_| Fr::rand(rng).into_repr()).collect();
    let zero = G1::zero();

    let window = window_sum_from(&zero, &(bases.clone(), 0), &FullDensity, &exponents, 6, 3, false);
    let joined = multiexp_from(&zero, &(bases.clone(), 0), &FullDensity, &exponents, 0, 4, true);

    assert_eq!(
        window,
        window_sum(&(bases.clone(), 0), &FullDensity, &exponents, 6, 3, false)
    );
    assert_eq!(joined, Ok(naive_multiexp(bases, Arc::new(exponents))));
}

#[test]
fn sums_start_from_the_point_that_is_given() {
    let bases = Arc::new(random_bases(1));
    let exponents = vec![small(1)];
    let start = G1::one();

    // With no bucket, the accumulator is the given point with the base added.
    let got = window_sum_from(&start, &(bases.clone(), 0), &FullDensity, &exponents, 0, 0, true);

    let mut expected = start;
    expected.add_assign_mixed(&bases[0]);
    assert_eq!(got, Ok(expected));
}
