//! When a multiplication fails, and with which error.

use vstd::prelude::*;
use vstd::arithmetic::power2::{lemma_pow2_pos, pow2};
use crate::curve::AffinePoint;
use crate::density::active_before;
use crate::model::{
    base_of, first_window, lemma_scan_failure_stays, multiexp_failure, next_window,
    scan_failure, window_failure, Window,
};
use crate::source::SynthesisError;
use crate::weights::{
    contribution, covered, covered_bits, lemma_active_before_monotonic,
    lemma_covered_is_digits,
};

verus! {

/// A scan that finds a base for each of its active slots does not run out of bases.
pub proof fn lemma_scan_not_exhausted<G: AffinePoint>(
    bases: Seq<G>,
    active: Seq<bool>,
    scalars: Seq<nat>,
    w: Window,
    n: int,
)
    requires
        active_before(active, n) <= bases.len(),
    ensures
        scan_failure(bases, active, scalars, w, n) != Some(SynthesisError::SourceExhausted),
    decreases n,
{
    if n > 0 {
        lemma_active_before_monotonic(active, n - 1, n);
        lemma_scan_not_exhausted(bases, active, scalars, w, n - 1);
    }
}

/// A scan that does not fail has found a base for each of its active slots.
pub proof fn lemma_scan_passed_has_bases<G: AffinePoint>(
    bases: Seq<G>,
    active: Seq<bool>,
    scalars: Seq<nat>,
    w: Window,
    n: int,
)
    requires
        scan_failure(bases, active, scalars, w, n) is None,
    ensures
        active_before(active, n) <= bases.len(),
    decreases n,
{
    if n > 0 {
        lemma_scan_passed_has_bases(bases, active, scalars, w, n - 1);
    }
}

/// A scan meets no point at infinity where none of the bases that it is to add is
/// one.
pub proof fn lemma_scan_meets_no_identity<G: AffinePoint>(
    bases: Seq<G>,
    active: Seq<bool>,
    scalars: Seq<nat>,
    w: Window,
    n: int,
)
    requires
        0 <= n <= scalars.len(),
        forall|i: int|
            0 <= i < n && active[i] && contribution(scalars[i], w) > 0 && active_before(active, i)
                < bases.len() ==> !(#[trigger] base_of(bases, active, i)).is_identity(),
    ensures
        scan_failure(bases, active, scalars, w, n) != Some(SynthesisError::IdentityPoint),
    decreases n,
{
    if n > 0 {
        lemma_scan_meets_no_identity(bases, active, scalars, w, n - 1);
        if active[n - 1] && contribution(scalars[n - 1], w) > 0 && active_before(active, n - 1)
            < bases.len() {
            assert(!base_of(bases, active, n - 1).is_identity());
        }
    }
}

/// A window fails where it is to add a base that is the point at infinity.
pub proof fn lemma_window_fails_on_identity<G: AffinePoint>(
    bases: Seq<G>,
    active: Seq<bool>,
    scalars: Seq<nat>,
    w: Window,
    i: int,
)
    requires
        0 <= i < scalars.len(),
        active[i],
        active_before(active, i) < bases.len(),
        base_of(bases, active, i).is_identity(),
        contribution(scalars[i], w) > 0,
    ensures
        window_failure(bases, active, scalars, w) is Some,
{
    lemma_scan_failure_stays(bases, active, scalars, w, i + 1, scalars.len() as int);
}

/// No window runs out of bases where there is a base for each active slot.
pub proof fn lemma_multiexp_not_exhausted<G: AffinePoint>(
    bases: Seq<G>,
    active: Seq<bool>,
    scalars: Seq<nat>,
    w: Window,
    num_bits: nat,
)
    requires
        active_before(active, scalars.len() as int) <= bases.len(),
    ensures
        multiexp_failure(bases, active, scalars, w, num_bits) != Some(
            SynthesisError::SourceExhausted,
        ),
    decreases num_bits - w.skip,
{
    lemma_scan_not_exhausted(bases, active, scalars, w, scalars.len() as int);
    if !(w.width == 0 || w.skip + w.width >= num_bits) {
        lemma_multiexp_not_exhausted(bases, active, scalars, next_window(w), num_bits);
    }
}

/// The windows from `w` up fail where one of them gives weight to a base that is
/// the point at infinity.
pub proof fn lemma_multiexp_fails_on_identity<G: AffinePoint>(
    bases: Seq<G>,
    active: Seq<bool>,
    scalars: Seq<nat>,
    w: Window,
    num_bits: nat,
    i: int,
)
    requires
        0 <= i < scalars.len(),
        active[i],
        active_before(active, i) < bases.len(),
        base_of(bases, active, i).is_identity(),
        covered(scalars[i], w, num_bits) > 0,
    ensures
        multiexp_failure(bases, active, scalars, w, num_bits) is Some,
    decreases num_bits - w.skip,
{
    if contribution(scalars[i], w) > 0 {
        lemma_window_fails_on_identity(bases, active, scalars, w, i);
    } else {
        let above = covered(scalars[i], next_window(w), num_bits) as int;
        let factor = pow2(w.width) as int;
        assert(above > 0) by (nonlinear_arith)
            requires
                factor * above > 0,
                above >= 0,
        ;
        lemma_multiexp_fails_on_identity(bases, active, scalars, next_window(w), num_bits, i);
    }
}

/// A base that is the point at infinity, at an active slot whose scalar is not
/// zero in the bits that the windows cover, makes the multiplication fail with
/// `IdentityPoint`, where the source holds a base for each active slot.
///
/// A scalar below two to the power `num_bits` lies in the covered bits whole, so
/// for it the condition is that it is not zero.
pub proof fn theorem_identity_rejected<G: AffinePoint>(
    bases: Seq<G>,
    active: Seq<bool>,
    scalars: Seq<nat>,
    c: nat,
    num_bits: nat,
    i: int,
)
    requires
        c >= 1,
        0 <= i < scalars.len(),
        active[i],
        active_before(active, scalars.len() as int) <= bases.len(),
        base_of(bases, active, i).is_identity(),
        scalars[i] % pow2(covered_bits(0, c, num_bits)) != 0,
    ensures
        multiexp_failure(bases, active, scalars, first_window(c), num_bits) == Some(
            SynthesisError::IdentityPoint,
        ),
{
    let w = first_window(c);
    lemma_active_before_monotonic(active, i + 1, scalars.len() as int);
    lemma_covered_is_digits(scalars[i], w, num_bits);
    vstd::arithmetic::power2::lemma2_to64();
    lemma_multiexp_fails_on_identity(bases, active, scalars, w, num_bits, i);
    lemma_multiexp_not_exhausted(bases, active, scalars, w, num_bits);
}

/// A source with fewer bases than there are active slots makes the multiplication
/// fail. It fails with `SourceExhausted` where no base of an active slot whose
/// scalar is not zero is the point at infinity. A point at infinity under a scalar
/// of zero, or past the last slot, is never read and does not matter; one under
/// another scalar may be met before the bases run out.
pub proof fn theorem_short_source_exhausted<G: AffinePoint>(
    bases: Seq<G>,
    active: Seq<bool>,
    scalars: Seq<nat>,
    c: nat,
    num_bits: nat,
)
    requires
        bases.len() < active_before(active, scalars.len() as int),
    ensures
        multiexp_failure(bases, active, scalars, first_window(c), num_bits) is Some,
        (forall|i: int|
            0 <= i < scalars.len() && active[i] && scalars[i] != 0 && active_before(active, i)
                < bases.len() ==> !(#[trigger] base_of(bases, active, i)).is_identity())
            ==> multiexp_failure(bases, active, scalars, first_window(c), num_bits) == Some(
            SynthesisError::SourceExhausted,
        ),
{
    let w = first_window(c);
    let n = scalars.len() as int;
    if scan_failure(bases, active, scalars, w, n) is None {
        lemma_scan_passed_has_bases(bases, active, scalars, w, n);
    }
    if forall|i: int|
        0 <= i < scalars.len() && active[i] && scalars[i] != 0 && active_before(active, i)
            < bases.len() ==> !(#[trigger] base_of(bases, active, i)).is_identity() {
        assert forall|i: int|
            0 <= i < n && active[i] && contribution(scalars[i], w) > 0 && active_before(
                active,
                i,
            ) < bases.len() implies !(#[trigger] base_of(bases, active, i)).is_identity() by {
            assert(scalars[i] != 0);
        }
        lemma_scan_meets_no_identity(bases, active, scalars, w, n);
    }
}

/// A scan passes where it finds a base for each active slot and none of the bases
/// that it is to add is the point at infinity.
pub proof fn lemma_scan_passes<G: AffinePoint>(
    bases: Seq<G>,
    active: Seq<bool>,
    scalars: Seq<nat>,
    w: Window,
    n: int,
)
    requires
        0 <= n <= scalars.len(),
        active_before(active, n) <= bases.len(),
        forall|i: int|
            0 <= i < n && active[i] && contribution(scalars[i], w) > 0 ==> !(#[trigger] base_of(
                bases,
                active,
                i,
            )).is_identity(),
    ensures
        scan_failure(bases, active, scalars, w, n) is None,
    decreases n,
{
    if n > 0 {
        lemma_active_before_monotonic(active, n - 1, n);
        lemma_scan_passes(bases, active, scalars, w, n - 1);
        if active[n - 1] && contribution(scalars[n - 1], w) > 0 {
            assert(!base_of(bases, active, n - 1).is_identity());
        }
    }
}

/// When the multiplication succeeds: exactly where the source holds a base for
/// each active slot, and no base that a window gives weight to is the point at
/// infinity.
pub proof fn theorem_success_characterised<G: AffinePoint>(
    bases: Seq<G>,
    active: Seq<bool>,
    scalars: Seq<nat>,
    w: Window,
    num_bits: nat,
)
    ensures
        multiexp_failure(bases, active, scalars, w, num_bits) is None <==> {
            &&& active_before(active, scalars.len() as int) <= bases.len()
            &&& forall|i: int|
                0 <= i < scalars.len() && active[i] && covered(scalars[i], w, num_bits) > 0
                    ==> !(#[trigger] base_of(bases, active, i)).is_identity()
        },
    decreases num_bits - w.skip,
{
    let n = scalars.len() as int;
    let last = w.width == 0 || w.skip + w.width >= num_bits;
    if multiexp_failure(bases, active, scalars, w, num_bits) is None {
        lemma_scan_passed_has_bases(bases, active, scalars, w, n);
        assert forall|i: int|
            0 <= i < scalars.len() && active[i] && covered(scalars[i], w, num_bits)
                > 0 implies !(#[trigger] base_of(bases, active, i)).is_identity() by {
            lemma_active_before_monotonic(active, i + 1, n);
            if base_of(bases, active, i).is_identity() {
                lemma_multiexp_fails_on_identity(bases, active, scalars, w, num_bits, i);
            }
        }
    }
    if active_before(active, n) <= bases.len() && (forall|i: int|
        0 <= i < scalars.len() && active[i] && covered(scalars[i], w, num_bits) > 0
            ==> !(#[trigger] base_of(bases, active, i)).is_identity()) {
        lemma_pow2_pos(w.width);
        assert forall|i: int|
            0 <= i < n && active[i] && contribution(scalars[i], w) > 0 implies !(#[trigger] base_of(
            bases,
            active,
            i,
        )).is_identity() by {
            assert(covered(scalars[i], w, num_bits) > 0) by {
                if !last {
                    vstd::arithmetic::mul::lemma_mul_nonnegative(
                        pow2(w.width) as int,
                        covered(scalars[i], next_window(w), num_bits) as int,
                    );
                }
            }
        }
        lemma_scan_passes(bases, active, scalars, w, n);
        if !last {
            assert forall|i: int|
                0 <= i < scalars.len() && active[i] && covered(
                    scalars[i],
                    next_window(w),
                    num_bits,
                ) > 0 implies !(#[trigger] base_of(bases, active, i)).is_identity() by {
                let above = covered(scalars[i], next_window(w), num_bits) as int;
                let factor = pow2(w.width) as int;
                assert(factor * above > 0) by (nonlinear_arith)
                    requires
                        factor > 0,
                        above > 0,
                ;
            }
            theorem_success_characterised(bases, active, scalars, next_window(w), num_bits);
        }
    }
}

} // verus!
