//! The mathematical model of the bucket method.
//!
//! The curve's operations are names without a definition (see `curve`), so what a
//! scan computes is written down as a term over them: which points are added, in
//! which order. `eval` reads a term as the point it stands for; `weight` counts how
//! often a base enters it. The first gives the functions of this library their
//! exact results, the second lets the laws of the method be stated and proved
//! without a group law.

use vstd::prelude::*;
use vstd::arithmetic::power2::pow2;
use crate::curve::AffinePoint;
use crate::density::active_before;
use crate::scalar::digit_at;
use crate::source::SynthesisError;

verus! {

/// A point as the operations that build it. A base is named by its position in
/// the source.
pub enum Term {
    /// The point that an accumulator starts from.
    Zero,
    /// The first point with the second added to it.
    Sum(Box<Term>, Box<Term>),
    /// The point, doubled.
    Doubled(Box<Term>),
    /// The point with the base at the given position added to it.
    Mixed(Box<Term>, int),
}

/// The point that a term stands for, over the given bases and with `zero` as the
/// point that every accumulator starts from.
pub open spec fn eval<G: AffinePoint>(
    t: Term,
    bases: Seq<G>,
    zero: G::Projective,
) -> G::Projective
    decreases t,
{
    match t {
        Term::Zero => zero,
        Term::Sum(a, b) => G::point_sum(eval(*a, bases, zero), eval(*b, bases, zero)),
        Term::Doubled(a) => G::point_doubled(eval(*a, bases, zero)),
        Term::Mixed(a, k) => G::mixed_sum(eval(*a, bases, zero), bases[k]),
    }
}

/// How many times the base at position `k` enters a term, a doubling counting
/// twice what it doubles.
pub open spec fn weight(t: Term, k: int) -> nat
    decreases t,
{
    match t {
        Term::Zero => 0,
        Term::Sum(a, b) => weight(*a, k) + weight(*b, k),
        Term::Doubled(a) => 2 * weight(*a, k),
        Term::Mixed(a, j) => weight(*a, k) + if j == k {
            1nat
        } else {
            0nat
        },
    }
}

/// One window of a scan: the `width` bits from bit `skip` on. `unit` tells whether
/// this window takes the scalars that are exactly one.
pub struct Window {
    pub skip: nat,
    pub width: nat,
    pub unit: bool,
}

/// What a scan does with the base of an active slot.
pub enum Action {
    /// The base is passed over unread.
    Pass,
    /// The base is added to the accumulator.
    Unit,
    /// The base is added to the bucket of this digit, which is not zero.
    Bucket(nat),
}

/// What a window does with the base of an active slot whose scalar is `s`.
pub open spec fn action(s: nat, w: Window) -> Action {
    if s == 0 {
        Action::Pass
    } else if s == 1 {
        if w.unit {
            Action::Unit
        } else {
            Action::Pass
        }
    } else if digit_at(s, w.skip, w.width) == 0 {
        Action::Pass
    } else {
        Action::Bucket(digit_at(s, w.skip, w.width))
    }
}

/// The base of the active slot `i`: the one at the position that the active slots
/// before it leave.
pub open spec fn base_of<G>(bases: Seq<G>, active: Seq<bool>, i: int) -> G {
    bases[active_before(active, i) as int]
}

/// The number of buckets of a window of `width` bits: one for each digit but zero.
pub open spec fn bucket_count(width: nat) -> nat {
    (pow2(width) - 1) as nat
}

/// The accumulator after the first `n` slots.
pub open spec fn unit_term(active: Seq<bool>, scalars: Seq<nat>, w: Window, n: int) -> Term
    decreases n,
{
    if n <= 0 {
        Term::Zero
    } else {
        let before = unit_term(active, scalars, w, n - 1);
        if active[n - 1] && action(scalars[n - 1], w) is Unit {
            Term::Mixed(Box::new(before), active_before(active, n - 1) as int)
        } else {
            before
        }
    }
}

/// The bucket of digit `d` after the first `n` slots.
pub open spec fn bucket_term(
    active: Seq<bool>,
    scalars: Seq<nat>,
    w: Window,
    d: nat,
    n: int,
) -> Term
    decreases n,
{
    if n <= 0 {
        Term::Zero
    } else {
        let before = bucket_term(active, scalars, w, d, n - 1);
        if active[n - 1] && action(scalars[n - 1], w) == Action::Bucket(d) {
            Term::Mixed(Box::new(before), active_before(active, n - 1) as int)
        } else {
            before
        }
    }
}

/// Why the scan of the first `n` slots fails, if it does. The first active slot
/// decides whose base is missing, or is the point at infinity and would be added.
pub open spec fn scan_failure<G: AffinePoint>(
    bases: Seq<G>,
    active: Seq<bool>,
    scalars: Seq<nat>,
    w: Window,
    n: int,
) -> Option<SynthesisError>
    decreases n,
{
    if n <= 0 {
        None
    } else {
        let before = scan_failure(bases, active, scalars, w, n - 1);
        let position = active_before(active, n - 1) as int;
        if before is Some {
            before
        } else if !active[n - 1] {
            None
        } else if position >= bases.len() {
            Some(SynthesisError::SourceExhausted)
        } else if !(action(scalars[n - 1], w) is Pass) && bases[position].is_identity() {
            Some(SynthesisError::IdentityPoint)
        } else {
            None
        }
    }
}

/// The buckets of a window after all slots, the bucket of digit one first.
pub open spec fn bucket_terms(active: Seq<bool>, scalars: Seq<nat>, w: Window) -> Seq<Term> {
    Seq::new(
        bucket_count(w.width),
        |j: int| bucket_term(active, scalars, w, (j + 1) as nat, scalars.len() as int),
    )
}

/// The running sum of the buckets from the last one down to bucket `j`.
pub open spec fn running_term(buckets: Seq<Term>, j: int) -> Term
    decreases buckets.len() - j,
{
    if j >= buckets.len() {
        Term::Zero
    } else {
        Term::Sum(Box::new(running_term(buckets, j + 1)), Box::new(buckets[j]))
    }
}

/// The accumulator with the running sums from the last bucket down to bucket `j`
/// added to it, one after the other.
pub open spec fn reduced_term(acc: Term, buckets: Seq<Term>, j: int) -> Term
    decreases buckets.len() - j,
{
    if j >= buckets.len() {
        acc
    } else {
        Term::Sum(
            Box::new(reduced_term(acc, buckets, j + 1)),
            Box::new(running_term(buckets, j)),
        )
    }
}

/// The sum of one window.
pub open spec fn window_term(active: Seq<bool>, scalars: Seq<nat>, w: Window) -> Term {
    reduced_term(
        unit_term(active, scalars, w, scalars.len() as int),
        bucket_terms(active, scalars, w),
        0,
    )
}

/// Why the scan of one window fails, if it does.
pub open spec fn window_failure<G: AffinePoint>(
    bases: Seq<G>,
    active: Seq<bool>,
    scalars: Seq<nat>,
    w: Window,
) -> Option<SynthesisError> {
    scan_failure(bases, active, scalars, w, scalars.len() as int)
}

/// A term doubled `times` times.
pub open spec fn doubled_times(t: Term, times: nat) -> Term
    decreases times,
{
    if times == 0 {
        t
    } else {
        Term::Doubled(Box::new(doubled_times(t, (times - 1) as nat)))
    }
}

/// A window joined to the windows above it: `higher`, the sum of those windows,
/// doubled once for each of the `width` bits of the window, then `this` added.
pub open spec fn joined_term(this: Term, higher: Term, width: nat) -> Term {
    Term::Sum(Box::new(doubled_times(higher, width)), Box::new(this))
}

/// The windows from `w` up to bit `num_bits`, joined.
pub open spec fn multiexp_term(
    active: Seq<bool>,
    scalars: Seq<nat>,
    w: Window,
    num_bits: nat,
) -> Term
    decreases num_bits - w.skip,
{
    let this = window_term(active, scalars, w);
    if w.width == 0 || w.skip + w.width >= num_bits {
        this
    } else {
        joined_term(this, multiexp_term(active, scalars, next_window(w), num_bits), w.width)
    }
}

/// The lowest window of a multiplication whose windows have `c` bits. It takes the
/// scalars that are exactly one.
pub open spec fn first_window(c: nat) -> Window {
    Window { skip: 0, width: c, unit: true }
}

/// The window above `w`.
pub open spec fn next_window(w: Window) -> Window {
    Window { skip: w.skip + w.width, width: w.width, unit: false }
}

/// Why the windows from `w` up to bit `num_bits` fail, if one does: the failure of
/// the lowest window that fails.
pub open spec fn multiexp_failure<G: AffinePoint>(
    bases: Seq<G>,
    active: Seq<bool>,
    scalars: Seq<nat>,
    w: Window,
    num_bits: nat,
) -> Option<SynthesisError>
    decreases num_bits - w.skip,
{
    let this = window_failure(bases, active, scalars, w);
    if this is Some || w.width == 0 || w.skip + w.width >= num_bits {
        this
    } else {
        multiexp_failure(bases, active, scalars, next_window(w), num_bits)
    }
}

/// A scan that has failed stays failed, with the same error, however many slots
/// follow.
pub proof fn lemma_scan_failure_stays<G: AffinePoint>(
    bases: Seq<G>,
    active: Seq<bool>,
    scalars: Seq<nat>,
    w: Window,
    m: int,
    n: int,
)
    requires
        m <= n,
        scan_failure(bases, active, scalars, w, m) is Some,
    ensures
        scan_failure(bases, active, scalars, w, n) == scan_failure(bases, active, scalars, w, m),
    decreases n - m,
{
    if m < n {
        lemma_scan_failure_stays(bases, active, scalars, w, m, n - 1);
    }
}

} // verus!
