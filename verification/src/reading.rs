//! Terms read in a commutative group.
//!
//! The library assumes no law of the curve's operations. This module takes the
//! other side: any reading of the operations that does obey the laws of a
//! commutative group. In such a reading a term stands for the sum of the bases,
//! each taken as often as its weight says, so two terms that give every base the
//! same weight stand for the same point. With the theorems on weights, the bucket
//! method then equals the direct evaluation, for every width of its windows.

use vstd::prelude::*;
use vstd::arithmetic::power2::pow2;
use crate::curve::AffinePoint;
use crate::composer::{lemma_width_for_bounds, width_for};
use crate::density::active_before;
use crate::exclusion::{active_scalars, lemma_active_scalars_from, theorem_term_exclusion};
use crate::laws::{
    all_active, lemma_weight_naive, lemma_weight_within_active, naive_term,
    theorem_equals_naive, theorem_width_invariance,
};
use crate::model::{eval, first_window, multiexp_term, weight, Term};
use crate::scalar::NUM_BITS;

verus! {

/// A reading of the curve's operations: points of a type `P`, bases of a type `B`.
#[verifier::reject_recursive_types(P)]
#[verifier::reject_recursive_types(B)]
pub struct Reading<P, B> {
    /// The point that an accumulator starts from.
    pub zero: P,
    /// The sum of two points.
    pub sum: spec_fn(P, P) -> P,
    /// A point, doubled.
    pub doubled: spec_fn(P) -> P,
    /// A point with a base added to it.
    pub mixed: spec_fn(P, B) -> P,
    /// A base as a point.
    pub lift: spec_fn(B) -> P,
}

/// The laws of a commutative group that the sums of a term rest on: the sum is
/// commutative and associative, the starting point is neutral, doubling adds a
/// point to itself, and adding a base adds it as a point.
#[verifier::opaque]
pub open spec fn lawful<P, B>(r: Reading<P, B>) -> bool {
    &&& forall|a: P, b: P| #[trigger] (r.sum)(a, b) == (r.sum)(b, a)
    &&& forall|a: P, b: P, c: P| #[trigger]
        (r.sum)((r.sum)(a, b), c) == (r.sum)(a, (r.sum)(b, c))
    &&& forall|a: P| #[trigger] (r.sum)(a, r.zero) == a
    &&& forall|a: P| #[trigger] (r.doubled)(a) == (r.sum)(a, a)
    &&& forall|a: P, b: B| #[trigger] (r.mixed)(a, b) == (r.sum)(a, (r.lift)(b))
}

/// The point that a term stands for in a reading.
pub open spec fn read<P, B>(r: Reading<P, B>, t: Term, bases: Seq<B>) -> P
    decreases t,
{
    match t {
        Term::Zero => r.zero,
        Term::Sum(a, b) => (r.sum)(read(r, *a, bases), read(r, *b, bases)),
        Term::Doubled(a) => (r.doubled)(read(r, *a, bases)),
        Term::Mixed(a, k) => (r.mixed)(read(r, *a, bases), bases[k]),
    }
}

/// The reading that the library's own contracts use: the operations of the curve
/// by their names, with `zero` as the point that a sum starts from.
pub open spec fn curve_reading<G: AffinePoint>(zero: G::Projective) -> Reading<
    G::Projective,
    G,
> {
    Reading {
        zero,
        sum: |a: G::Projective, b: G::Projective| G::point_sum(a, b),
        doubled: |a: G::Projective| G::point_doubled(a),
        mixed: |a: G::Projective, b: G| G::mixed_sum(a, b),
        lift: |b: G| G::mixed_sum(zero, b),
    }
}

/// `eval` is the reading by the names of the curve's operations.
pub proof fn lemma_eval_is_reading<G: AffinePoint>(t: Term, bases: Seq<G>, zero: G::Projective)
    ensures
        eval(t, bases, zero) == read(curve_reading::<G>(zero), t, bases),
    decreases t,
{
    match t {
        Term::Zero => {},
        Term::Sum(a, b) => {
            lemma_eval_is_reading(*a, bases, zero);
            lemma_eval_is_reading(*b, bases, zero);
        },
        Term::Doubled(a) => {
            lemma_eval_is_reading(*a, bases, zero);
        },
        Term::Mixed(a, k) => {
            lemma_eval_is_reading(*a, bases, zero);
        },
    }
}

/// The integers under addition, each base an integer: a reading that obeys the
/// laws.
pub open spec fn integer_reading() -> Reading<int, int> {
    Reading {
        zero: 0,
        sum: |a: int, b: int| a + b,
        doubled: |a: int| 2 * a,
        mixed: |a: int, b: int| a + b,
        lift: |b: int| b,
    }
}

/// The laws hold of the integers, so there are readings that obey them.
pub proof fn lemma_integers_are_lawful()
    ensures
        lawful(integer_reading()),
{
    reveal(lawful);
}

proof fn lemma_sum_commutes<P, B>(r: Reading<P, B>, a: P, b: P)
    requires
        lawful(r),
    ensures
        (r.sum)(a, b) == (r.sum)(b, a),
{
    reveal(lawful);
}

proof fn lemma_sum_associates<P, B>(r: Reading<P, B>, a: P, b: P, c: P)
    requires
        lawful(r),
    ensures
        (r.sum)((r.sum)(a, b), c) == (r.sum)(a, (r.sum)(b, c)),
{
    reveal(lawful);
}

proof fn lemma_sum_zero<P, B>(r: Reading<P, B>, a: P)
    requires
        lawful(r),
    ensures
        (r.sum)(a, r.zero) == a,
        (r.sum)(r.zero, a) == a,
{
    reveal(lawful);
}

proof fn lemma_doubled_is_sum<P, B>(r: Reading<P, B>, a: P)
    requires
        lawful(r),
    ensures
        (r.doubled)(a) == (r.sum)(a, a),
{
    reveal(lawful);
}

proof fn lemma_mixed_is_sum<P, B>(r: Reading<P, B>, a: P, b: B)
    requires
        lawful(r),
    ensures
        (r.mixed)(a, b) == (r.sum)(a, (r.lift)(b)),
{
    reveal(lawful);
}

/// `(a + b) + (c + d)` is `(a + c) + (b + d)`.
proof fn lemma_sum_shuffles<P, B>(r: Reading<P, B>, a: P, b: P, c: P, d: P)
    requires
        lawful(r),
    ensures
        (r.sum)((r.sum)(a, b), (r.sum)(c, d)) == (r.sum)((r.sum)(a, c), (r.sum)(b, d)),
{
    lemma_sum_associates(r, a, b, (r.sum)(c, d));
    lemma_sum_associates(r, b, c, d);
    lemma_sum_commutes(r, b, c);
    lemma_sum_associates(r, c, b, d);
    lemma_sum_associates(r, a, c, (r.sum)(b, d));
}

/// The point `x` added to itself until it is there `times` times.
pub open spec fn multiple<P, B>(r: Reading<P, B>, x: P, times: nat) -> P
    decreases times,
{
    if times == 0 {
        r.zero
    } else {
        (r.sum)(multiple(r, x, (times - 1) as nat), x)
    }
}

proof fn lemma_multiple_adds<P, B>(r: Reading<P, B>, x: P, a: nat, b: nat)
    requires
        lawful(r),
    ensures
        multiple(r, x, a + b) == (r.sum)(multiple(r, x, a), multiple(r, x, b)),
    decreases b,
{
    if b == 0 {
        lemma_sum_zero(r, multiple(r, x, a));
    } else {
        lemma_multiple_adds(r, x, a, (b - 1) as nat);
        lemma_sum_associates(r, multiple(r, x, a), multiple(r, x, (b - 1) as nat), x);
    }
}

/// The sum of the first `m` bases, each taken as often as its weight in `t` says.
pub open spec fn combination<P, B>(r: Reading<P, B>, bases: Seq<B>, t: Term, m: int) -> P
    decreases m,
{
    if m <= 0 {
        r.zero
    } else {
        (r.sum)(
            combination(r, bases, t, m - 1),
            multiple(r, (r.lift)(bases[m - 1]), weight(t, m - 1)),
        )
    }
}

proof fn lemma_combination_agrees<P, B>(
    r: Reading<P, B>,
    bases: Seq<B>,
    first: Term,
    second: Term,
    m: int,
)
    requires
        forall|k: int| 0 <= k < m ==> weight(first, k) == weight(second, k),
    ensures
        combination(r, bases, first, m) == combination(r, bases, second, m),
    decreases m,
{
    if m > 0 {
        lemma_combination_agrees(r, bases, first, second, m - 1);
    }
}

proof fn lemma_combination_zero<P, B>(r: Reading<P, B>, bases: Seq<B>, t: Term, m: int)
    requires
        lawful(r),
        forall|k: int| 0 <= k < m ==> weight(t, k) == 0,
    ensures
        combination(r, bases, t, m) == r.zero,
    decreases m,
{
    if m > 0 {
        lemma_combination_zero(r, bases, t, m - 1);
        lemma_sum_zero(r, r.zero);
    }
}

proof fn lemma_combination_adds<P, B>(
    r: Reading<P, B>,
    bases: Seq<B>,
    t: Term,
    a: Term,
    b: Term,
    m: int,
)
    requires
        lawful(r),
        forall|k: int| 0 <= k < m ==> weight(t, k) == weight(a, k) + weight(b, k),
    ensures
        combination(r, bases, t, m) == (r.sum)(
            combination(r, bases, a, m),
            combination(r, bases, b, m),
        ),
    decreases m,
{
    if m > 0 {
        lemma_combination_adds(r, bases, t, a, b, m - 1);
        let x = (r.lift)(bases[m - 1]);
        lemma_multiple_adds(r, x, weight(a, m - 1), weight(b, m - 1));
        lemma_sum_shuffles(
            r,
            combination(r, bases, a, m - 1),
            combination(r, bases, b, m - 1),
            multiple(r, x, weight(a, m - 1)),
            multiple(r, x, weight(b, m - 1)),
        );
    } else {
        lemma_sum_zero(r, r.zero);
    }
}

proof fn lemma_combination_bump<P, B>(
    r: Reading<P, B>,
    bases: Seq<B>,
    t: Term,
    a: Term,
    j: int,
    m: int,
)
    requires
        lawful(r),
        0 <= j < m,
        forall|k: int|
            0 <= k < m ==> weight(t, k) == weight(a, k) + if k == j {
                1nat
            } else {
                0nat
            },
    ensures
        combination(r, bases, t, m) == (r.sum)(
            combination(r, bases, a, m),
            (r.lift)(bases[j]),
        ),
    decreases m,
{
    let x = (r.lift)(bases[m - 1]);
    let rest = combination(r, bases, a, m - 1);
    let last = multiple(r, x, weight(a, m - 1));
    if j == m - 1 {
        lemma_combination_agrees(r, bases, t, a, m - 1);
        lemma_sum_associates(r, rest, last, x);
    } else {
        lemma_combination_bump(r, bases, t, a, j, m - 1);
        let added = (r.lift)(bases[j]);
        lemma_sum_associates(r, rest, added, last);
        lemma_sum_commutes(r, added, last);
        lemma_sum_associates(r, rest, last, added);
    }
}

/// In a reading that obeys the laws, a term stands for the sum of the bases, each
/// taken as often as its weight says.
pub proof fn theorem_reading_is_combination<P, B>(
    r: Reading<P, B>,
    t: Term,
    bases: Seq<B>,
    m: int,
)
    requires
        lawful(r),
        forall|q: int| weight(t, q) > 0 ==> 0 <= q < m,
    ensures
        read(r, t, bases) == combination(r, bases, t, m),
    decreases t,
{
    match t {
        Term::Zero => {
            lemma_combination_zero(r, bases, t, m);
        },
        Term::Sum(a, b) => {
            assert forall|q: int| weight(*a, q) > 0 implies 0 <= q < m by {
                assert(weight(t, q) > 0);
            }
            assert forall|q: int| weight(*b, q) > 0 implies 0 <= q < m by {
                assert(weight(t, q) > 0);
            }
            theorem_reading_is_combination(r, *a, bases, m);
            theorem_reading_is_combination(r, *b, bases, m);
            lemma_combination_adds(r, bases, t, *a, *b, m);
        },
        Term::Doubled(a) => {
            assert forall|q: int| weight(*a, q) > 0 implies 0 <= q < m by {
                assert(weight(t, q) > 0);
            }
            theorem_reading_is_combination(r, *a, bases, m);
            lemma_doubled_is_sum(r, read(r, *a, bases));
            lemma_combination_adds(r, bases, t, *a, *a, m);
        },
        Term::Mixed(a, k) => {
            assert forall|q: int| weight(*a, q) > 0 implies 0 <= q < m by {
                assert(weight(t, q) > 0);
            }
            assert(weight(t, k) > 0);
            theorem_reading_is_combination(r, *a, bases, m);
            lemma_mixed_is_sum(r, read(r, *a, bases), bases[k]);
            lemma_combination_bump(r, bases, t, *a, k, m);
        },
    }
}

/// In a reading that obeys the laws, two terms that give every base the same
/// weight stand for the same point.
pub proof fn theorem_equal_weights_equal_points<P, B>(
    r: Reading<P, B>,
    first: Term,
    second: Term,
    bases: Seq<B>,
    m: int,
)
    requires
        lawful(r),
        forall|q: int| weight(first, q) == weight(second, q),
        forall|q: int| weight(first, q) > 0 ==> 0 <= q < m,
    ensures
        read(r, first, bases) == read(r, second, bases),
{
    theorem_reading_is_combination(r, first, bases, m);
    theorem_reading_is_combination(r, second, bases, m);
    lemma_combination_agrees(r, bases, first, second, m);
}

/// Equivalence to the direct evaluation: in every reading of the curve's
/// operations that obeys the laws of a commutative group, the bucket method over
/// slots that are all active gives the point that the direct evaluation gives:
/// the sum of the bases, each multiplied by its scalar.
///
/// The scalars are below two to the power `num_bits`, as every representation of
/// a field element is.
pub proof fn theorem_equals_naive_in_groups<P, B>(
    r: Reading<P, B>,
    bases: Seq<B>,
    scalars: Seq<nat>,
    c: nat,
    num_bits: nat,
)
    requires
        lawful(r),
        c >= 1,
        forall|i: int| 0 <= i < scalars.len() ==> scalars[i] < pow2(num_bits),
    ensures
        read(
            r,
            multiexp_term(all_active(scalars.len()), scalars, first_window(c), num_bits),
            bases,
        ) == read(r, naive_term(scalars, scalars.len() as int), bases),
{
    let n = scalars.len();
    let fast = multiexp_term(all_active(n), scalars, first_window(c), num_bits);
    let naive = naive_term(scalars, n as int);
    assert forall|q: int| weight(fast, q) == weight(naive, q) by {
        theorem_equals_naive(scalars, c, num_bits, q);
    }
    assert forall|q: int| weight(fast, q) > 0 implies 0 <= q < n by {
        theorem_equals_naive(scalars, c, num_bits, q);
        lemma_weight_naive(scalars, n as int, q);
    }
    theorem_equal_weights_equal_points(r, fast, naive, bases, n as int);
}

/// Window-width invariance: in every reading of the curve's operations that obeys
/// the laws of a commutative group, the multiplication gives the same point for
/// any two widths of its windows.
///
/// The scalars of the active slots are below two to the power `num_bits`.
pub proof fn theorem_width_invariance_in_groups<P, B>(
    r: Reading<P, B>,
    bases: Seq<B>,
    active: Seq<bool>,
    scalars: Seq<nat>,
    c1: nat,
    c2: nat,
    num_bits: nat,
)
    requires
        lawful(r),
        c1 >= 1,
        c2 >= 1,
        forall|i: int| 0 <= i < scalars.len() && active[i] ==> scalars[i] < pow2(num_bits),
    ensures
        read(r, multiexp_term(active, scalars, first_window(c1), num_bits), bases) == read(
            r,
            multiexp_term(active, scalars, first_window(c2), num_bits),
            bases,
        ),
{
    let first = multiexp_term(active, scalars, first_window(c1), num_bits);
    let second = multiexp_term(active, scalars, first_window(c2), num_bits);
    let m = active_before(active, scalars.len() as int) as int;
    assert forall|q: int| weight(first, q) == weight(second, q) by {
        theorem_width_invariance(active, scalars, c1, c2, num_bits, q);
    }
    assert forall|q: int| weight(first, q) > 0 implies 0 <= q < m by {
        lemma_weight_within_active(active, scalars, first_window(c1), num_bits, q);
    }
    theorem_equal_weights_equal_points(r, first, second, bases, m);
}

/// What `multiexp` computes, with the width that it chooses and the bits of the
/// scalar field: in every reading of the curve's operations that obeys the laws of
/// a commutative group, the point of its term is the sum of the bases of the
/// active slots, each taken as often as the scalar of its slot says.
///
/// The scalars of the active slots are below two to the power `NUM_BITS`, as the
/// representation of every element of the scalar field is.
pub proof fn theorem_multiexp_is_the_sum<P, B>(
    r: Reading<P, B>,
    bases: Seq<B>,
    active: Seq<bool>,
    scalars: Seq<nat>,
)
    requires
        lawful(r),
        scalars.len() <= usize::MAX,
        forall|i: int|
            0 <= i < scalars.len() && active[i] ==> scalars[i] < pow2(NUM_BITS as nat),
    ensures
        ({
            let kept = active_scalars(active, scalars, scalars.len() as int);
            let term = multiexp_term(
                active,
                scalars,
                first_window(width_for(scalars.len())),
                NUM_BITS as nat,
            );
            read(r, term, bases) == read(r, naive_term(kept, kept.len() as int), bases)
        }),
{
    let n = scalars.len();
    let c = width_for(n);
    let w = first_window(c);
    let kept = active_scalars(active, scalars, n as int);
    lemma_width_for_bounds(n);
    theorem_term_exclusion(active, scalars, w, NUM_BITS as nat);
    assert forall|k: int| 0 <= k < kept.len() implies kept[k] < pow2(NUM_BITS as nat) by {
        lemma_active_scalars_from(active, scalars, n as int, k);
    }
    theorem_equals_naive_in_groups(r, bases, kept, c, NUM_BITS as nat);
}

} // verus!
