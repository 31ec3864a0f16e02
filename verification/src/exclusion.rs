//! Inactive slots: a multiplication over a density map is the multiplication over
//! the active slots alone.

use vstd::prelude::*;
use crate::curve::AffinePoint;
use crate::density::active_before;
use crate::laws::{all_active, lemma_all_active_position};
use crate::model::{
    bucket_term, bucket_terms, eval, multiexp_failure, multiexp_term, next_window,
    scan_failure, unit_term, window_term, Window,
};
use crate::weights::lemma_active_before_monotonic;

verus! {

/// The scalars of the active slots among the first `n`, in order.
pub open spec fn active_scalars(active: Seq<bool>, scalars: Seq<nat>, n: int) -> Seq<nat>
    decreases n,
{
    if n <= 0 {
        Seq::empty()
    } else if active[n - 1] {
        active_scalars(active, scalars, n - 1).push(scalars[n - 1])
    } else {
        active_scalars(active, scalars, n - 1)
    }
}

/// There is one scalar for each active slot.
pub proof fn lemma_active_scalars_len(active: Seq<bool>, scalars: Seq<nat>, n: int)
    ensures
        active_scalars(active, scalars, n).len() == active_before(active, n),
    decreases n,
{
    if n > 0 {
        lemma_active_scalars_len(active, scalars, n - 1);
    }
}

/// The scalar of an active slot stands where its base stands.
pub proof fn lemma_active_scalars_at(active: Seq<bool>, scalars: Seq<nat>, i: int, n: int)
    requires
        0 <= i < n,
        active[i],
    ensures
        active_scalars(active, scalars, n)[active_before(active, i) as int] == scalars[i],
    decreases n,
{
    lemma_active_scalars_len(active, scalars, n - 1);
    if i < n - 1 {
        lemma_active_scalars_at(active, scalars, i, n - 1);
        lemma_active_before_monotonic(active, i + 1, n - 1);
    }
}

/// Every scalar that is kept is the scalar of an active slot.
pub proof fn lemma_active_scalars_from(active: Seq<bool>, scalars: Seq<nat>, n: int, k: int)
    requires
        0 <= k < active_scalars(active, scalars, n).len(),
    ensures
        exists|i: int|
            0 <= i < n && active[i] && active_scalars(active, scalars, n)[k]
                == #[trigger] scalars[i],
    decreases n,
{
    if n > 0 {
        let before = active_scalars(active, scalars, n - 1);
        if active[n - 1] && k == before.len() {
            assert(active_scalars(active, scalars, n)[k] == scalars[n - 1]);
        } else {
            lemma_active_scalars_from(active, scalars, n - 1, k);
        }
    }
}

proof fn lemma_scan_terms_exclusion(
    active: Seq<bool>,
    scalars: Seq<nat>,
    w: Window,
    d: nat,
    n: int,
)
    requires
        0 <= n <= scalars.len(),
    ensures
        ({
            let kept = active_scalars(active, scalars, scalars.len() as int);
            let full = all_active(kept.len());
            let m = active_before(active, n) as int;
            &&& unit_term(active, scalars, w, n) == unit_term(full, kept, w, m)
            &&& bucket_term(active, scalars, w, d, n) == bucket_term(full, kept, w, d, m)
        }),
    decreases n,
{
    let total = scalars.len() as int;
    let kept = active_scalars(active, scalars, total);
    if n > 0 {
        lemma_scan_terms_exclusion(active, scalars, w, d, n - 1);
        if active[n - 1] {
            let k = active_before(active, n - 1) as int;
            lemma_active_scalars_len(active, scalars, total);
            lemma_active_before_monotonic(active, n, total);
            lemma_active_scalars_at(active, scalars, n - 1, total);
            lemma_all_active_position(kept.len(), k);
        }
    }
}

proof fn lemma_scan_failure_exclusion<G: AffinePoint>(
    bases: Seq<G>,
    active: Seq<bool>,
    scalars: Seq<nat>,
    w: Window,
    n: int,
)
    requires
        0 <= n <= scalars.len(),
    ensures
        ({
            let kept = active_scalars(active, scalars, scalars.len() as int);
            let full = all_active(kept.len());
            let m = active_before(active, n) as int;
            scan_failure(bases, active, scalars, w, n) == scan_failure(bases, full, kept, w, m)
        }),
    decreases n,
{
    let total = scalars.len() as int;
    let kept = active_scalars(active, scalars, total);
    if n > 0 {
        lemma_scan_failure_exclusion(bases, active, scalars, w, n - 1);
        if active[n - 1] {
            let k = active_before(active, n - 1) as int;
            lemma_active_scalars_len(active, scalars, total);
            lemma_active_before_monotonic(active, n, total);
            lemma_active_scalars_at(active, scalars, n - 1, total);
            lemma_all_active_position(kept.len(), k);
        }
    }
}

proof fn lemma_window_term_exclusion(active: Seq<bool>, scalars: Seq<nat>, w: Window)
    ensures
        ({
            let kept = active_scalars(active, scalars, scalars.len() as int);
            window_term(active, scalars, w) == window_term(all_active(kept.len()), kept, w)
        }),
{
    let total = scalars.len() as int;
    let kept = active_scalars(active, scalars, total);
    let full = all_active(kept.len());
    lemma_active_scalars_len(active, scalars, total);
    lemma_scan_terms_exclusion(active, scalars, w, 0, total);
    assert forall|j: int| 0 <= j < bucket_terms(active, scalars, w).len() implies bucket_terms(
        active,
        scalars,
        w,
    )[j] == bucket_terms(full, kept, w)[j] by {
        lemma_scan_terms_exclusion(active, scalars, w, (j + 1) as nat, total);
    }
    assert(bucket_terms(active, scalars, w) =~= bucket_terms(full, kept, w));
}

/// Over a density map, the term of the multiplication is the term over the scalars
/// of the active slots alone with every slot active.
pub proof fn theorem_term_exclusion(
    active: Seq<bool>,
    scalars: Seq<nat>,
    w: Window,
    num_bits: nat,
)
    ensures
        ({
            let kept = active_scalars(active, scalars, scalars.len() as int);
            multiexp_term(active, scalars, w, num_bits) == multiexp_term(
                all_active(kept.len()),
                kept,
                w,
                num_bits,
            )
        }),
    decreases num_bits - w.skip,
{
    lemma_window_term_exclusion(active, scalars, w);
    if !(w.width == 0 || w.skip + w.width >= num_bits) {
        theorem_term_exclusion(active, scalars, next_window(w), num_bits);
    }
}

/// Density exclusion: over a density map, the multiplication is the one over the
/// scalars of the active slots alone with every slot active. The two have the same
/// term, so they give the same point over the same bases from the same starting
/// point `zero`, and they fail alike.
pub proof fn theorem_density_exclusion<G: AffinePoint>(
    bases: Seq<G>,
    active: Seq<bool>,
    scalars: Seq<nat>,
    w: Window,
    num_bits: nat,
    zero: G::Projective,
)
    ensures
        ({
            let kept = active_scalars(active, scalars, scalars.len() as int);
            let full = all_active(kept.len());
            &&& eval(multiexp_term(active, scalars, w, num_bits), bases, zero) == eval(
                multiexp_term(full, kept, w, num_bits),
                bases,
                zero,
            )
            &&& multiexp_failure(bases, active, scalars, w, num_bits) == multiexp_failure(
                bases,
                full,
                kept,
                w,
                num_bits,
            )
        }),
    decreases num_bits - w.skip,
{
    let total = scalars.len() as int;
    theorem_term_exclusion(active, scalars, w, num_bits);
    lemma_active_scalars_len(active, scalars, total);
    lemma_scan_failure_exclusion(bases, active, scalars, w, total);
    if !(w.width == 0 || w.skip + w.width >= num_bits) {
        theorem_density_exclusion(bases, active, scalars, next_window(w), num_bits, zero);
    }
}

} // verus!
