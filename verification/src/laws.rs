//! What the multiplication computes, stated over the weights of the bases.
//!
//! `multiexp` returns the point that `multiexp_term` stands for. The theorems here
//! say how often each base enters that term: as often as its scalar says. Read in
//! a commutative group, a term is fixed by these weights, so they are what the
//! equality of two sums comes to.

use vstd::prelude::*;
use vstd::arithmetic::div_mod::lemma_small_mod;
use vstd::arithmetic::power2::{lemma2_to64, lemma_pow2_pos, lemma_pow2_strictly_increases, pow2};
use crate::curve::AffinePoint;
use crate::density::active_before;
use crate::failures::{lemma_scan_passed_has_bases, theorem_success_characterised};
use crate::model::{
    action, base_of, eval, first_window, multiexp_failure, multiexp_term, next_window,
    scan_failure, weight, Term, Window,
};
use crate::scalar::digit_at;
use crate::weights::{
    covered, covered_all, covered_bits, lemma_active_before_monotonic,
    lemma_covered_bits_reach, lemma_covered_from_any_window, lemma_covered_is_digits,
    lemma_slot_sum_beyond, lemma_slot_sum_unique, lemma_weight_multiexp, slot_sum,
};

verus! {

/// The flags of `n` slots that are all active.
pub open spec fn all_active(n: nat) -> Seq<bool> {
    Seq::new(n, |i: int| true)
}

/// Where every slot is active, the base of slot `i` stands at position `i`.
pub proof fn lemma_all_active_position(n: nat, i: int)
    requires
        0 <= i <= n,
    ensures
        active_before(all_active(n), i) == i,
    decreases i,
{
    if i > 0 {
        lemma_all_active_position(n, i - 1);
    }
}

proof fn lemma_slot_sum_agrees(active: Seq<bool>, a: Seq<nat>, b: Seq<nat>, p: int, n: int)
    requires
        forall|i: int| 0 <= i < n && active[i] ==> a[i] == b[i],
    ensures
        slot_sum(active, a, p, n) == slot_sum(active, b, p, n),
    decreases n,
{
    if n > 0 {
        lemma_slot_sum_agrees(active, a, b, p, n - 1);
    }
}

pub proof fn lemma_slot_sum_before(active: Seq<bool>, values: Seq<nat>, p: int, n: int)
    requires
        p < 0,
    ensures
        slot_sum(active, values, p, n) == 0,
    decreases n,
{
    if n > 0 {
        lemma_slot_sum_before(active, values, p, n - 1);
    }
}

/// Where every slot is active, the sum over the slots at position `p` is the value
/// of slot `p`.
pub proof fn lemma_slot_sum_all_active(values: Seq<nat>, p: int)
    ensures
        slot_sum(all_active(values.len()), values, p, values.len() as int) == if 0 <= p
            < values.len() {
            values[p]
        } else {
            0
        },
{
    let n = values.len();
    let active = all_active(n);
    lemma_all_active_position(n, n as int);
    if 0 <= p < n {
        lemma_all_active_position(n, p);
        lemma_slot_sum_unique(active, values, p, n as int);
    } else if p < 0 {
        lemma_slot_sum_before(active, values, p, n as int);
    } else {
        lemma_slot_sum_beyond(active, values, p, n as int);
    }
}

/// The base of an active slot enters the result as often as the bits of its scalar
/// that the windows cover say: the scalar modulo two to the power of their number.
pub proof fn theorem_weight_is_covered_scalar(
    active: Seq<bool>,
    scalars: Seq<nat>,
    c: nat,
    num_bits: nat,
    i: int,
)
    requires
        c >= 1,
        0 <= i < scalars.len(),
        active[i],
    ensures
        weight(
            multiexp_term(active, scalars, first_window(c), num_bits),
            active_before(active, i) as int,
        ) == scalars[i] % pow2(covered_bits(0, c, num_bits)),
{
    let w = first_window(c);
    let p = active_before(active, i) as int;
    lemma_weight_multiexp(active, scalars, w, num_bits, p);
    lemma_slot_sum_unique(active, covered_all(scalars, w, num_bits), i, scalars.len() as int);
    lemma_covered_is_digits(scalars[i], w, num_bits);
    lemma2_to64();
}

/// The joined windows from any window `w` up, whichever way `w` treats the scalars
/// of one: the base of an active slot whose scalar is one enters once where `w`
/// takes such scalars and not at all where it passes over them; the base of every
/// other active slot enters as often as the bits of its scalar say from the first
/// bit of `w` up to the last bit that the windows cover.
pub proof fn theorem_weight_from_any_window(
    active: Seq<bool>,
    scalars: Seq<nat>,
    w: Window,
    num_bits: nat,
    i: int,
)
    requires
        w.width >= 1,
        0 <= i < scalars.len(),
        active[i],
    ensures
        weight(multiexp_term(active, scalars, w, num_bits), active_before(active, i) as int)
            == if scalars[i] == 1 {
            if w.unit {
                1nat
            } else {
                0nat
            }
        } else {
            digit_at(scalars[i], w.skip, covered_bits(w.skip, w.width, num_bits))
        },
{
    let p = active_before(active, i) as int;
    lemma_weight_multiexp(active, scalars, w, num_bits, p);
    lemma_slot_sum_unique(active, covered_all(scalars, w, num_bits), i, scalars.len() as int);
    lemma_covered_from_any_window(scalars[i], w, num_bits);
}

/// The windows give a scalar below two to the power `num_bits` its own value.
pub proof fn lemma_covered_is_scalar(s: nat, c: nat, num_bits: nat)
    requires
        c >= 1,
        s < pow2(num_bits),
    ensures
        covered(s, first_window(c), num_bits) == s,
{
    let bits = covered_bits(0, c, num_bits);
    lemma_covered_is_digits(s, first_window(c), num_bits);
    lemma_covered_bits_reach(0, c, num_bits);
    if num_bits < bits {
        lemma_pow2_strictly_increases(num_bits, bits);
    }
    lemma_pow2_pos(bits);
    lemma_small_mod(s, pow2(bits));
    lemma2_to64();
    assert(s / 1 == s);
}

/// Where the scalars of the active slots are below two to the power `num_bits`,
/// as every representation of a field element is, the base at position `p` enters
/// the result as often as the scalar of its slot says, whatever the width of the
/// windows.
pub proof fn theorem_weight_is_scalar(
    active: Seq<bool>,
    scalars: Seq<nat>,
    c: nat,
    num_bits: nat,
    p: int,
)
    requires
        c >= 1,
        forall|i: int| 0 <= i < scalars.len() && active[i] ==> scalars[i] < pow2(num_bits),
    ensures
        weight(multiexp_term(active, scalars, first_window(c), num_bits), p) == slot_sum(
            active,
            scalars,
            p,
            scalars.len() as int,
        ),
{
    let w = first_window(c);
    let given = covered_all(scalars, w, num_bits);
    lemma_weight_multiexp(active, scalars, w, num_bits, p);
    assert forall|i: int| 0 <= i < scalars.len() && active[i] implies given[i]
        == scalars[i] by {
        lemma_covered_is_scalar(scalars[i], c, num_bits);
    }
    lemma_slot_sum_agrees(active, given, scalars, p, scalars.len() as int);
}

/// The base at position `k`, added `times` times to `acc`.
pub open spec fn added_times(acc: Term, k: int, times: nat) -> Term
    decreases times,
{
    if times == 0 {
        acc
    } else {
        Term::Mixed(Box::new(added_times(acc, k, (times - 1) as nat)), k)
    }
}

/// The direct evaluation of the first `n` slots: each base multiplied by its scalar
/// on its own, by adding it that many times, and the products summed in order.
pub open spec fn naive_term(scalars: Seq<nat>, n: int) -> Term
    decreases n,
{
    if n <= 0 {
        Term::Zero
    } else {
        Term::Sum(
            Box::new(naive_term(scalars, n - 1)),
            Box::new(added_times(Term::Zero, n - 1, scalars[n - 1])),
        )
    }
}

proof fn lemma_weight_added_times(acc: Term, k: int, times: nat, p: int)
    ensures
        weight(added_times(acc, k, times), p) == weight(acc, p) + if k == p {
            times
        } else {
            0
        },
    decreases times,
{
    if times > 0 {
        lemma_weight_added_times(acc, k, (times - 1) as nat, p);
    }
}

/// The direct evaluation holds the base of every slot as often as its scalar says.
pub proof fn lemma_weight_naive(scalars: Seq<nat>, n: int, p: int)
    ensures
        weight(naive_term(scalars, n), p) == if 0 <= p < n {
            scalars[p]
        } else {
            0
        },
    decreases n,
{
    if n > 0 {
        lemma_weight_naive(scalars, n - 1, p);
        lemma_weight_added_times(Term::Zero, n - 1, scalars[n - 1], p);
    }
}

/// With every slot active and every scalar below two to the power `num_bits`, the
/// bucket method and the direct evaluation hold every base equally often.
///
/// A scalar from two to the power `num_bits` on is left out: the windows end at
/// the last bit they cover, and the bucket method takes such a scalar modulo two
/// to the power of that bit (`theorem_weight_is_covered_scalar`).
pub proof fn theorem_equals_naive(scalars: Seq<nat>, c: nat, num_bits: nat, p: int)
    requires
        c >= 1,
        forall|i: int| 0 <= i < scalars.len() ==> scalars[i] < pow2(num_bits),
    ensures
        weight(
            multiexp_term(all_active(scalars.len()), scalars, first_window(c), num_bits),
            p,
        ) == weight(naive_term(scalars, scalars.len() as int), p),
{
    theorem_weight_is_scalar(all_active(scalars.len()), scalars, c, num_bits, p);
    lemma_slot_sum_all_active(scalars, p);
    lemma_weight_naive(scalars, scalars.len() as int, p);
}

/// The width of the windows does not change how often a base enters the result,
/// where the scalars of the active slots are below two to the power `num_bits`.
pub proof fn theorem_width_invariance(
    active: Seq<bool>,
    scalars: Seq<nat>,
    c1: nat,
    c2: nat,
    num_bits: nat,
    p: int,
)
    requires
        c1 >= 1,
        c2 >= 1,
        forall|i: int| 0 <= i < scalars.len() && active[i] ==> scalars[i] < pow2(num_bits),
    ensures
        weight(multiexp_term(active, scalars, first_window(c1), num_bits), p) == weight(
            multiexp_term(active, scalars, first_window(c2), num_bits),
            p,
        ),
{
    theorem_weight_is_scalar(active, scalars, c1, num_bits, p);
    theorem_weight_is_scalar(active, scalars, c2, num_bits, p);
}

/// A term stands for the same point over two sequences of bases that agree
/// wherever the term has weight.
pub proof fn lemma_eval_agrees<G: AffinePoint>(
    t: Term,
    first: Seq<G>,
    second: Seq<G>,
    zero: G::Projective,
)
    requires
        forall|q: int| weight(t, q) > 0 ==> first[q] == second[q],
    ensures
        eval(t, first, zero) == eval(t, second, zero),
    decreases t,
{
    match t {
        Term::Zero => {},
        Term::Sum(a, b) => {
            lemma_eval_agrees(*a, first, second, zero);
            lemma_eval_agrees(*b, first, second, zero);
        },
        Term::Doubled(a) => {
            lemma_eval_agrees(*a, first, second, zero);
        },
        Term::Mixed(a, k) => {
            lemma_eval_agrees(*a, first, second, zero);
        },
    }
}

/// Two active slots whose bases stand at the same position are one slot.
pub proof fn lemma_position_unique(active: Seq<bool>, i: int, k: int)
    requires
        0 <= i,
        0 <= k,
        active[i],
        active[k],
        active_before(active, i) == active_before(active, k),
    ensures
        i == k,
{
    if i < k {
        lemma_active_before_monotonic(active, i + 1, k);
    } else if k < i {
        lemma_active_before_monotonic(active, k + 1, i);
    }
}

proof fn lemma_scan_ignores_passed<G: AffinePoint>(
    bases: Seq<G>,
    active: Seq<bool>,
    scalars: Seq<nat>,
    w: Window,
    i: int,
    x: G,
    n: int,
)
    requires
        0 <= i,
        active[i],
        active_before(active, i) < bases.len(),
        action(scalars[i], w) is Pass,
        0 <= n,
    ensures
        scan_failure(bases.update(active_before(active, i) as int, x), active, scalars, w, n)
            == scan_failure(bases, active, scalars, w, n),
    decreases n,
{
    if n > 0 {
        lemma_scan_ignores_passed(bases, active, scalars, w, i, x, n - 1);
        if active[n - 1] && active_before(active, n - 1) == active_before(active, i) {
            lemma_position_unique(active, i, n - 1);
        }
    }
}

proof fn lemma_multiexp_ignores_zero<G: AffinePoint>(
    bases: Seq<G>,
    active: Seq<bool>,
    scalars: Seq<nat>,
    w: Window,
    num_bits: nat,
    i: int,
    x: G,
)
    requires
        0 <= i,
        active[i],
        active_before(active, i) < bases.len(),
        scalars[i] == 0,
    ensures
        multiexp_failure(
            bases.update(active_before(active, i) as int, x),
            active,
            scalars,
            w,
            num_bits,
        ) == multiexp_failure(bases, active, scalars, w, num_bits),
        covered(0, w, num_bits) == 0,
    decreases num_bits - w.skip,
{
    lemma_scan_ignores_passed(bases, active, scalars, w, i, x, scalars.len() as int);
    if !(w.width == 0 || w.skip + w.width >= num_bits) {
        lemma_multiexp_ignores_zero(bases, active, scalars, next_window(w), num_bits, i, x);
        assert(pow2(w.width) * 0 == 0);
    }
}

/// An active slot whose scalar is zero gives its base no weight, and the base is
/// never read: with any point in its place, the point at infinity too, the
/// multiplication fails or passes as before and, where it passes, gives the same
/// point from the same starting point `zero`. The base is taken to be there: a
/// source that ends before it has no place to put a point in.
pub proof fn theorem_zero_scalar_neutral<G: AffinePoint>(
    bases: Seq<G>,
    active: Seq<bool>,
    scalars: Seq<nat>,
    w: Window,
    num_bits: nat,
    i: int,
    x: G,
    zero: G::Projective,
)
    requires
        0 <= i < scalars.len(),
        active[i],
        active_before(active, i) < bases.len(),
        scalars[i] == 0,
    ensures
        ({
            let p = active_before(active, i) as int;
            let term = multiexp_term(active, scalars, w, num_bits);
            &&& weight(term, p) == 0
            &&& multiexp_failure(bases.update(p, x), active, scalars, w, num_bits)
                == multiexp_failure(bases, active, scalars, w, num_bits)
            &&& multiexp_failure(bases, active, scalars, w, num_bits) is None ==> eval(
                term,
                bases.update(p, x),
                zero,
            ) == eval(term, bases, zero)
        }),
{
    let p = active_before(active, i) as int;
    let n = scalars.len() as int;
    let term = multiexp_term(active, scalars, w, num_bits);
    let given = covered_all(scalars, w, num_bits);
    lemma_multiexp_ignores_zero(bases, active, scalars, w, num_bits, i, x);
    lemma_weight_multiexp(active, scalars, w, num_bits, p);
    lemma_slot_sum_unique(active, given, i, n);
    if multiexp_failure(bases, active, scalars, w, num_bits) is None {
        lemma_scan_passed_has_bases(bases, active, scalars, w, n);
        assert forall|q: int| weight(term, q) > 0 implies bases.update(p, x)[q]
            == bases[q] by {
            lemma_weight_multiexp(active, scalars, w, num_bits, q);
            if q < 0 {
                lemma_slot_sum_before(active, given, q, n);
            } else if q >= active_before(active, n) {
                lemma_slot_sum_beyond(active, given, q, n);
            }
        }
        lemma_eval_agrees(term, bases.update(p, x), bases, zero);
    }
}

/// The bases that a multiplication gives weight to are those of its active slots.
pub proof fn lemma_weight_within_active(
    active: Seq<bool>,
    scalars: Seq<nat>,
    w: Window,
    num_bits: nat,
    q: int,
)
    requires
        weight(multiexp_term(active, scalars, w, num_bits), q) > 0,
    ensures
        0 <= q < active_before(active, scalars.len() as int),
{
    let given = covered_all(scalars, w, num_bits);
    lemma_weight_multiexp(active, scalars, w, num_bits, q);
    if q < 0 {
        lemma_slot_sum_before(active, given, q, scalars.len() as int);
    } else if q >= active_before(active, scalars.len() as int) {
        lemma_slot_sum_beyond(active, given, q, scalars.len() as int);
    }
}

/// When the multiplication succeeds, for scalars below two to the power
/// `num_bits`: exactly where the source holds a base for each active slot, and no
/// base of an active slot whose scalar is not zero is the point at infinity.
pub proof fn theorem_success_for_field_scalars<G: AffinePoint>(
    bases: Seq<G>,
    active: Seq<bool>,
    scalars: Seq<nat>,
    c: nat,
    num_bits: nat,
)
    requires
        c >= 1,
        forall|i: int| 0 <= i < scalars.len() && active[i] ==> scalars[i] < pow2(num_bits),
    ensures
        multiexp_failure(bases, active, scalars, first_window(c), num_bits) is None <==> {
            &&& active_before(active, scalars.len() as int) <= bases.len()
            &&& forall|i: int|
                0 <= i < scalars.len() && active[i] && scalars[i] != 0 ==> !(#[trigger] base_of(
                    bases,
                    active,
                    i,
                )).is_identity()
        },
{
    let w = first_window(c);
    theorem_success_characterised(bases, active, scalars, w, num_bits);
    assert forall|i: int| 0 <= i < scalars.len() && active[i] implies covered(
        scalars[i],
        w,
        num_bits,
    ) == scalars[i] by {
        lemma_covered_is_scalar(scalars[i], c, num_bits);
    }
}

/// The width of the windows does not change whether the multiplication succeeds,
/// where the scalars of the active slots are below two to the power `num_bits`.
/// Where it fails, the error may differ: the widths cut the scalars into other
/// digits, and the lowest window of one may meet a point at infinity that the
/// lowest window of the other passes over.
pub proof fn theorem_width_invariance_of_success<G: AffinePoint>(
    bases: Seq<G>,
    active: Seq<bool>,
    scalars: Seq<nat>,
    c1: nat,
    c2: nat,
    num_bits: nat,
)
    requires
        c1 >= 1,
        c2 >= 1,
        forall|i: int| 0 <= i < scalars.len() && active[i] ==> scalars[i] < pow2(num_bits),
    ensures
        multiexp_failure(bases, active, scalars, first_window(c1), num_bits) is None
            <==> multiexp_failure(bases, active, scalars, first_window(c2), num_bits) is None,
{
    theorem_success_for_field_scalars(bases, active, scalars, c1, num_bits);
    theorem_success_for_field_scalars(bases, active, scalars, c2, num_bits);
}

proof fn lemma_scan_reads_active_bases<G: AffinePoint>(
    first: Seq<G>,
    second: Seq<G>,
    active: Seq<bool>,
    scalars: Seq<nat>,
    w: Window,
    n: int,
)
    requires
        active_before(active, n) <= first.len(),
        active_before(active, n) <= second.len(),
        forall|q: int| 0 <= q < active_before(active, n) ==> first[q] == second[q],
    ensures
        scan_failure(first, active, scalars, w, n) == scan_failure(second, active, scalars, w, n),
    decreases n,
{
    if n > 0 {
        lemma_active_before_monotonic(active, n - 1, n);
        lemma_scan_reads_active_bases(first, second, active, scalars, w, n - 1);
    }
}

proof fn lemma_multiexp_reads_active_bases<G: AffinePoint>(
    first: Seq<G>,
    second: Seq<G>,
    active: Seq<bool>,
    scalars: Seq<nat>,
    w: Window,
    num_bits: nat,
)
    requires
        active_before(active, scalars.len() as int) <= first.len(),
        active_before(active, scalars.len() as int) <= second.len(),
        forall|q: int|
            0 <= q < active_before(active, scalars.len() as int) ==> first[q] == second[q],
    ensures
        multiexp_failure(first, active, scalars, w, num_bits) == multiexp_failure(
            second,
            active,
            scalars,
            w,
            num_bits,
        ),
    decreases num_bits - w.skip,
{
    lemma_scan_reads_active_bases(first, second, active, scalars, w, scalars.len() as int);
    if !(w.width == 0 || w.skip + w.width >= num_bits) {
        lemma_multiexp_reads_active_bases(
            first,
            second,
            active,
            scalars,
            next_window(w),
            num_bits,
        );
    }
}

/// The bases past those of the active slots play no part: two sources that hold
/// the same base for each active slot make the multiplication fail or pass alike
/// and give the same point from the same starting point `zero`.
pub proof fn theorem_spare_bases_play_no_part<G: AffinePoint>(
    first: Seq<G>,
    second: Seq<G>,
    active: Seq<bool>,
    scalars: Seq<nat>,
    w: Window,
    num_bits: nat,
    zero: G::Projective,
)
    requires
        active_before(active, scalars.len() as int) <= first.len(),
        active_before(active, scalars.len() as int) <= second.len(),
        forall|q: int|
            0 <= q < active_before(active, scalars.len() as int) ==> first[q] == second[q],
    ensures
        multiexp_failure(first, active, scalars, w, num_bits) == multiexp_failure(
            second,
            active,
            scalars,
            w,
            num_bits,
        ),
        eval(multiexp_term(active, scalars, w, num_bits), first, zero) == eval(
            multiexp_term(active, scalars, w, num_bits),
            second,
            zero,
        ),
{
    let term = multiexp_term(active, scalars, w, num_bits);
    lemma_multiexp_reads_active_bases(first, second, active, scalars, w, num_bits);
    assert forall|q: int| weight(term, q) > 0 implies first[q] == second[q] by {
        lemma_weight_within_active(active, scalars, w, num_bits, q);
    }
    lemma_eval_agrees(term, first, second, zero);
}

} // verus!
