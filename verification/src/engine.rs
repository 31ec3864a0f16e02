//! The bucket reduction of one window.

use vstd::prelude::*;
use vstd::bits::{lemma_usize_pow2_no_overflow, lemma_usize_shl_is_mul};
use pairing::bls12_381::FrRepr;
use crate::curve::AffinePoint;
use crate::density::{active_before, density_flags, QueryDensity};
use crate::model::{
    bucket_count, bucket_term, bucket_terms, eval, lemma_scan_failure_stays, reduced_term,
    running_term, scan_failure, unit_term, window_failure, window_term, Window,
};
use crate::scalar::{
    repr_value, same_scalar, scalar_one, scalar_values, scalar_zero, window_digit,
};
use crate::source::{Source, SourceBuilder, SynthesisError};

verus! {

/// A vector of `count` copies of `zero`.
fn empty_buckets<G: AffinePoint>(zero: &G::Projective, count: usize) -> (buckets: Vec<
    G::Projective,
>)
    ensures
        buckets@ == Seq::new(count as nat, |j: int| *zero),
{
    let mut buckets: Vec<G::Projective> = Vec::new();
    let mut filled: usize = 0;
    while filled < count
        invariant
            filled <= count,
            buckets@ == Seq::new(filled as nat, |j: int| *zero),
        decreases count - filled,
    {
        buckets.push(*zero);
        filled += 1;
    }
    buckets
}

/// The sum of one window: the bits from `skip` up to `skip + c` of every scalar.
///
/// The scalars are walked in index order, each with its flag of the density map.
/// An inactive slot has no base. An active slot takes the next base of a fresh
/// source: a scalar of zero passes over it; a scalar of one adds it to the
/// accumulator where `handle_trivial` is set and passes over it where not; any
/// other scalar adds it to the bucket of its digit in this window, and passes over
/// it where that digit is zero. The buckets are then folded into the accumulator
/// from the highest digit down, through one running sum, so that the bucket of
/// digit `d` is counted `d` times without a multiplication.
///
/// The scan fails at the first slot whose base is missing or, where it is to be
/// added, is the point at infinity.
///
/// The accumulator, every bucket and the running sum start as copies of `zero`.
pub fn window_sum_from<G: AffinePoint, B: SourceBuilder<G>, D: QueryDensity>(
    zero: &G::Projective,
    bases: &B,
    density_map: &D,
    exponents: &Vec<FrRepr>,
    skip: u32,
    c: u32,
    handle_trivial: bool,
) -> (r: Result<G::Projective, SynthesisError>)
    requires
        c < usize::BITS,
        density_map.size() matches Some(size) ==> size == exponents.len(),
    ensures
        ({
            let active = density_flags(density_map, exponents@.len());
            let scalars = scalar_values(exponents@);
            let w = Window { skip: skip as nat, width: c as nat, unit: handle_trivial };
            match r {
                Ok(sum) => {
                    &&& window_failure(bases.bases(), active, scalars, w) is None
                    &&& sum == eval(window_term(active, scalars, w), bases.bases(), *zero)
                },
                Err(e) => window_failure(bases.bases(), active, scalars, w) == Some(e),
            }
        }),
{
    let ghost all = bases.bases();
    let ghost active = density_flags(density_map, exponents@.len());
    let ghost scalars = scalar_values(exponents@);
    let ghost w = Window { skip: skip as nat, width: c as nat, unit: handle_trivial };
    let n: usize = exponents.len();

    proof {
        lemma_usize_pow2_no_overflow(c as nat);
        lemma_usize_shl_is_mul(1usize, c as usize);
    }
    let count: usize = (1usize << c) - 1;
    let mut acc = *zero;
    let mut source = bases.new();
    let mut buckets = empty_buckets::<G>(zero, count);
    let no_scalar = scalar_zero();
    let unit_scalar = scalar_one();

    let mut i: usize = 0;
    while i < n
        invariant
            i <= n,
            n == exponents@.len(),
            c < usize::BITS,
            density_map.size() matches Some(size) ==> size == n,
            active == density_flags(density_map, n as nat),
            scalars == scalar_values(exponents@),
            w == (Window { skip: skip as nat, width: c as nat, unit: handle_trivial }),
            all == bases.bases(),
            repr_value(no_scalar) == 0,
            repr_value(unit_scalar) == 1,
            count == bucket_count(c as nat),
            buckets@.len() == count,
            scan_failure(all, active, scalars, w, i as int) is None,
            active_before(active, i as int) <= all.len(),
            source.remaining() == all.skip(active_before(active, i as int) as int),
            acc == eval(unit_term(active, scalars, w, i as int), all, *zero),
            forall|j: int|
                0 <= j < count ==> buckets@[j] == eval(
                    #[trigger] bucket_term(active, scalars, w, (j + 1) as nat, i as int),
                    all,
                    *zero,
                ),
        decreases n - i,
    {
        let ghost before = buckets@;
        if density_map.is_active(i) {
            let exp = &exponents[i];
            let outcome = if same_scalar(exp, &no_scalar) {
                source.skip(1)
            } else if same_scalar(exp, &unit_scalar) {
                if handle_trivial {
                    source.add_assign_mixed(&mut acc)
                } else {
                    source.skip(1)
                }
            } else {
                let digit: u64 = window_digit(exp, skip, c);
                if digit != 0 {
                    source.add_assign_mixed(&mut buckets[(digit - 1) as usize])
                } else {
                    source.skip(1)
                }
            };
            if let Err(e) = outcome {
                proof {
                    lemma_scan_failure_stays(all, active, scalars, w, i + 1, n as int);
                }
                return Err(e);
            }
        }
        assert forall|j: int| 0 <= j < count implies buckets@[j] == eval(
            #[trigger] bucket_term(active, scalars, w, (j + 1) as nat, i + 1),
            all,
            *zero,
        ) by {
            assert(before[j] == eval(
                bucket_term(active, scalars, w, (j + 1) as nat, i as int),
                all,
                *zero,
            ));
        }
        i += 1;
    }

    let ghost terms = bucket_terms(active, scalars, w);
    let ghost start = unit_term(active, scalars, w, n as int);
    let mut running = *zero;
    let mut j: usize = count;
    while j > 0
        invariant
            j <= count,
            buckets@.len() == count,
            terms.len() == count,
            forall|k: int|
                0 <= k < count ==> buckets@[k] == eval(#[trigger] terms[k], all, *zero),
            running == eval(running_term(terms, j as int), all, *zero),
            acc == eval(reduced_term(start, terms, j as int), all, *zero),
        decreases j,
    {
        j -= 1;
        G::add_assign(&mut running, &buckets[j]);
        G::add_assign(&mut acc, &running);
        assert(running == eval(running_term(terms, j as int), all, *zero));
    }
    Ok(acc)
}

/// The sum of one window, as `window_sum_from` computes it, from a point at
/// infinity that is drawn once for the accumulator, the buckets and the running
/// sum.
pub fn window_sum<G: AffinePoint, B: SourceBuilder<G>, D: QueryDensity>(
    bases: &B,
    density_map: &D,
    exponents: &Vec<FrRepr>,
    skip: u32,
    c: u32,
    handle_trivial: bool,
) -> (r: Result<G::Projective, SynthesisError>)
    requires
        c < usize::BITS,
        density_map.size() matches Some(size) ==> size == exponents.len(),
    ensures
        ({
            let active = density_flags(density_map, exponents@.len());
            let scalars = scalar_values(exponents@);
            let w = Window { skip: skip as nat, width: c as nat, unit: handle_trivial };
            match r {
                Ok(sum) => {
                    &&& window_failure(bases.bases(), active, scalars, w) is None
                    &&& exists|zero: G::Projective|
                        #[trigger] G::is_zero_point(zero) && sum == eval(
                            window_term(active, scalars, w),
                            bases.bases(),
                            zero,
                        )
                },
                Err(e) => window_failure(bases.bases(), active, scalars, w) == Some(e),
            }
        }),
{
    let zero = G::identity();
    window_sum_from(&zero, bases, density_map, exponents, skip, c, handle_trivial)
}

} // verus!
