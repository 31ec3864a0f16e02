//! How often each base enters a sum.
//!
//! The weight of a base in a term is the number by which the base is multiplied
//! once the term is read in a commutative group. This module computes the weights
//! of the terms of the bucket method: of a window, where the fold by running sums
//! gives the bucket of digit `d` the weight `d`, and of the joined windows, where
//! the doublings give each window the weight of its place.

use vstd::prelude::*;
use vstd::arithmetic::div_mod::{lemma_div_denominator, lemma_mod_bound, lemma_mod_breakdown};
use vstd::arithmetic::mul::lemma_mul_is_distributive_add;
use vstd::arithmetic::power2::{lemma_pow2_adds, lemma_pow2_pos, pow2};
use crate::density::active_before;
use crate::model::{
    action, bucket_count, bucket_term, bucket_terms, doubled_times, multiexp_term,
    next_window, reduced_term, running_term, unit_term, weight, window_term, Action, Term,
    Window,
};
use crate::scalar::digit_at;

verus! {

/// The weight that a window gives to the base of an active slot whose scalar is
/// `s`: nothing where the base is passed over, one where it goes to the
/// accumulator, the digit where it goes to a bucket.
pub open spec fn contribution(s: nat, w: Window) -> nat {
    match action(s, w) {
        Action::Pass => 0,
        Action::Unit => 1,
        Action::Bucket(d) => d,
    }
}

/// The contribution of every scalar in a window.
pub open spec fn contributions(scalars: Seq<nat>, w: Window) -> Seq<nat> {
    Seq::new(scalars.len(), |i: int| contribution(scalars[i], w))
}

/// The sum of `values` over the active slots among the first `n` whose base stands
/// at position `p` of the source. There is at most one such slot.
pub open spec fn slot_sum(active: Seq<bool>, values: Seq<nat>, p: int, n: int) -> nat
    decreases n,
{
    if n <= 0 {
        0
    } else {
        slot_sum(active, values, p, n - 1) + if active[n - 1] && active_before(active, n - 1)
            == p {
            values[n - 1]
        } else {
            0
        }
    }
}

/// The sum of the entries of `ws` from `j` up to `m`.
pub open spec fn plain_sum(ws: Seq<nat>, j: int, m: int) -> nat
    decreases m - j,
{
    if m <= j {
        0
    } else {
        plain_sum(ws, j, m - 1) + ws[m - 1]
    }
}

/// The sum of the entries of `ws` from `j` up to `m`, the entry at `j` counted once,
/// the next one twice, and so on.
pub open spec fn stair_sum(ws: Seq<nat>, j: int, m: int) -> nat
    decreases m - j,
{
    if m <= j {
        0
    } else {
        stair_sum(ws, j, m - 1) + ((m - j) * ws[m - 1]) as nat
    }
}

/// The weight of the base at position `p` in each of `terms`.
pub open spec fn weights_of(terms: Seq<Term>, p: int) -> Seq<nat> {
    Seq::new(terms.len(), |k: int| weight(terms[k], p))
}

proof fn lemma_plain_sum_front(ws: Seq<nat>, j: int, m: int)
    requires
        j < m,
    ensures
        plain_sum(ws, j, m) == ws[j] + plain_sum(ws, j + 1, m),
    decreases m - j,
{
    if j + 1 < m {
        lemma_plain_sum_front(ws, j, m - 1);
    } else {
        assert(plain_sum(ws, j, m - 1) == 0);
    }
}

proof fn lemma_stair_sum_front(ws: Seq<nat>, j: int, m: int)
    requires
        j < m,
    ensures
        stair_sum(ws, j, m) == stair_sum(ws, j + 1, m) + plain_sum(ws, j, m),
    decreases m - j,
{
    let last = ws[m - 1] as int;
    let wide = (m - j) * last;
    let narrow = (m - (j + 1)) * last;
    assert(wide == narrow + last && narrow >= 0) by (nonlinear_arith)
        requires
            wide == (m - j) * last,
            narrow == (m - (j + 1)) * last,
            j < m,
            0 <= last,
    ;
    if j + 1 < m {
        lemma_stair_sum_front(ws, j, m - 1);
    } else {
        assert(narrow == 0) by (nonlinear_arith)
            requires
                narrow == (m - (j + 1)) * last,
                j + 1 == m,
        ;
        assert(stair_sum(ws, j, m - 1) == 0);
    }
}

/// A running sum holds each bucket from its own down to the last one once.
pub proof fn lemma_weight_running(terms: Seq<Term>, p: int, j: int)
    requires
        0 <= j <= terms.len(),
    ensures
        weight(running_term(terms, j), p) == plain_sum(
            weights_of(terms, p),
            j,
            terms.len() as int,
        ),
    decreases terms.len() - j,
{
    if j < terms.len() {
        lemma_weight_running(terms, p, j + 1);
        lemma_plain_sum_front(weights_of(terms, p), j, terms.len() as int);
    }
}

/// Summation by parts: adding the running sums one after the other gives the
/// bucket at `j` once, the next one twice, and so on, on top of the accumulator.
pub proof fn lemma_weight_reduced(acc: Term, terms: Seq<Term>, p: int, j: int)
    requires
        0 <= j <= terms.len(),
    ensures
        weight(reduced_term(acc, terms, j), p) == weight(acc, p) + stair_sum(
            weights_of(terms, p),
            j,
            terms.len() as int,
        ),
    decreases terms.len() - j,
{
    if j < terms.len() {
        lemma_weight_reduced(acc, terms, p, j + 1);
        lemma_weight_running(terms, p, j);
        lemma_stair_sum_front(weights_of(terms, p), j, terms.len() as int);
    }
}

proof fn lemma_stair_sum_agrees(a: Seq<nat>, b: Seq<nat>, m: int)
    requires
        forall|k: int| 0 <= k < m ==> a[k] == b[k],
    ensures
        stair_sum(a, 0, m) == stair_sum(b, 0, m),
    decreases m,
{
    if m > 0 {
        lemma_stair_sum_agrees(a, b, m - 1);
    }
}

proof fn lemma_stair_sum_bump(a: Seq<nat>, b: Seq<nat>, q: int, m: int)
    requires
        0 <= q < m,
        b[q] == a[q] + 1,
        forall|k: int| 0 <= k < m && k != q ==> a[k] == b[k],
    ensures
        stair_sum(b, 0, m) == stair_sum(a, 0, m) + q + 1,
    decreases m,
{
    if q == m - 1 {
        lemma_stair_sum_agrees(a, b, m - 1);
        let old_weight = a[q] as int;
        assert(m * (old_weight + 1) == m * old_weight + m) by (nonlinear_arith);
        assert(0 <= m * old_weight) by (nonlinear_arith)
            requires
                0 <= m,
                0 <= old_weight,
        ;
    } else {
        lemma_stair_sum_bump(a, b, q, m - 1);
    }
}

/// The weight of the base at position `p` in each bucket after the first `n`
/// slots, the bucket of digit one first.
pub open spec fn bucket_weights(
    active: Seq<bool>,
    scalars: Seq<nat>,
    w: Window,
    p: int,
    n: int,
) -> Seq<nat> {
    Seq::new(
        bucket_count(w.width),
        |k: int| weight(bucket_term(active, scalars, w, (k + 1) as nat, n), p),
    )
}

/// A digit that is not zero has a bucket.
pub proof fn lemma_digit_has_bucket(s: nat, w: Window)
    ensures
        digit_at(s, w.skip, w.width) <= bucket_count(w.width),
{
    lemma_pow2_pos(w.width);
    lemma_mod_bound((s / pow2(w.skip)) as int, pow2(w.width) as int);
}

/// After any number of slots, the accumulator and the buckets, each bucket counted
/// as often as its digit says, hold every base as often as its slot contributes.
pub proof fn lemma_weight_scan(active: Seq<bool>, scalars: Seq<nat>, w: Window, p: int, n: int)
    requires
        0 <= n <= scalars.len(),
    ensures
        weight(unit_term(active, scalars, w, n), p) + stair_sum(
            bucket_weights(active, scalars, w, p, n),
            0,
            bucket_count(w.width) as int,
        ) == slot_sum(active, contributions(scalars, w), p, n),
    decreases n,
{
    let count = bucket_count(w.width) as int;
    let now = bucket_weights(active, scalars, w, p, n);
    if n > 0 {
        lemma_weight_scan(active, scalars, w, p, n - 1);
        let before = bucket_weights(active, scalars, w, p, n - 1);
        let s = scalars[n - 1];
        let hit = active[n - 1] && active_before(active, n - 1) == p;
        lemma_digit_has_bucket(s, w);
        match action(s, w) {
            Action::Bucket(d) => {
                if hit {
                    lemma_stair_sum_bump(before, now, d - 1, count);
                } else {
                    lemma_stair_sum_agrees(before, now, count);
                }
            },
            _ => {
                lemma_stair_sum_agrees(before, now, count);
            },
        }
    } else {
        lemma_stair_sum_zero(now, count);
    }
}

proof fn lemma_stair_sum_zero(ws: Seq<nat>, m: int)
    requires
        forall|k: int| 0 <= k < m ==> ws[k] == 0,
    ensures
        stair_sum(ws, 0, m) == 0,
    decreases m,
{
    if m > 0 {
        lemma_stair_sum_zero(ws, m - 1);
    }
}

/// The sum of a window holds every base as often as its slot contributes in that
/// window.
pub proof fn lemma_weight_window(active: Seq<bool>, scalars: Seq<nat>, w: Window, p: int)
    ensures
        weight(window_term(active, scalars, w), p) == slot_sum(
            active,
            contributions(scalars, w),
            p,
            scalars.len() as int,
        ),
{
    let n = scalars.len() as int;
    let terms = bucket_terms(active, scalars, w);
    lemma_weight_reduced(unit_term(active, scalars, w, n), terms, p, 0);
    lemma_weight_scan(active, scalars, w, p, n);
    assert(weights_of(terms, p) =~= bucket_weights(active, scalars, w, p, n));
}

/// The weight that the windows from `w` up give to the base of an active slot
/// whose scalar is `s`, each window counted at its place above `w`.
pub open spec fn covered(s: nat, w: Window, num_bits: nat) -> nat
    decreases num_bits - w.skip,
{
    if w.width == 0 || w.skip + w.width >= num_bits {
        contribution(s, w)
    } else {
        contribution(s, w) + pow2(w.width) * covered(s, next_window(w), num_bits)
    }
}

/// What the windows from `w` up give to each scalar.
pub open spec fn covered_all(scalars: Seq<nat>, w: Window, num_bits: nat) -> Seq<nat> {
    Seq::new(scalars.len(), |i: int| covered(scalars[i], w, num_bits))
}

/// The number of bits that the windows of width `c` from bit `skip` up to bit
/// `num_bits` cover: the width times the number of windows.
pub open spec fn covered_bits(skip: nat, c: nat, num_bits: nat) -> nat
    decreases num_bits - skip,
{
    if c == 0 || skip + c >= num_bits {
        c
    } else {
        c + covered_bits(skip + c, c, num_bits)
    }
}

/// The windows reach the last bit: from `skip` they cover `num_bits` or more.
pub proof fn lemma_covered_bits_reach(skip: nat, c: nat, num_bits: nat)
    requires
        c >= 1,
    ensures
        skip + covered_bits(skip, c, num_bits) >= num_bits,
        covered_bits(skip, c, num_bits) >= c,
    decreases num_bits - skip,
{
    if skip + c < num_bits {
        lemma_covered_bits_reach(skip + c, c, num_bits);
    }
}

/// A term doubled holds every base twice as often with each doubling.
pub proof fn lemma_weight_doubled(t: Term, times: nat, p: int)
    ensures
        weight(doubled_times(t, times), p) == pow2(times) * weight(t, p),
    decreases times,
{
    let base = weight(t, p) as int;
    if times > 0 {
        lemma_weight_doubled(t, (times - 1) as nat, p);
        vstd::arithmetic::power2::lemma_pow2_unfold(times);
        let half = pow2((times - 1) as nat) as int;
        assert(2 * (half * base) == (2 * half) * base) by (nonlinear_arith);
    } else {
        vstd::arithmetic::power2::lemma2_to64();
    }
}

proof fn lemma_slot_sum_linear(
    active: Seq<bool>,
    a: Seq<nat>,
    b: Seq<nat>,
    both: Seq<nat>,
    factor: nat,
    p: int,
    n: int,
)
    requires
        forall|i: int| 0 <= i < n ==> both[i] == a[i] + factor * b[i],
    ensures
        slot_sum(active, both, p, n) == slot_sum(active, a, p, n) + factor * slot_sum(
            active,
            b,
            p,
            n,
        ),
    decreases n,
{
    if n > 0 {
        lemma_slot_sum_linear(active, a, b, both, factor, p, n - 1);
        let rest = slot_sum(active, b, p, n - 1) as int;
        let last = b[n - 1] as int;
        lemma_mul_is_distributive_add(factor as int, rest, last);
    } else {
        assert(factor * 0 == 0);
    }
}

/// The joined windows hold every base as often as the windows give to its slot.
pub proof fn lemma_weight_multiexp(
    active: Seq<bool>,
    scalars: Seq<nat>,
    w: Window,
    num_bits: nat,
    p: int,
)
    ensures
        weight(multiexp_term(active, scalars, w, num_bits), p) == slot_sum(
            active,
            covered_all(scalars, w, num_bits),
            p,
            scalars.len() as int,
        ),
    decreases num_bits - w.skip,
{
    let n = scalars.len() as int;
    lemma_weight_window(active, scalars, w, p);
    if w.width == 0 || w.skip + w.width >= num_bits {
        assert(covered_all(scalars, w, num_bits) =~= contributions(scalars, w));
    } else {
        let above = next_window(w);
        lemma_weight_multiexp(active, scalars, above, num_bits, p);
        lemma_weight_doubled(multiexp_term(active, scalars, above, num_bits), w.width, p);
        lemma_slot_sum_linear(
            active,
            contributions(scalars, w),
            covered_all(scalars, above, num_bits),
            covered_all(scalars, w, num_bits),
            pow2(w.width),
            p,
            n,
        );
    }
}

/// In the lowest window with the scalars of one taken, and in a higher window
/// with them passed over, a slot contributes the digit of its scalar.
pub proof fn lemma_contribution_is_digit(s: nat, w: Window)
    requires
        w.width >= 1,
        w.unit == (w.skip == 0),
    ensures
        contribution(s, w) == digit_at(s, w.skip, w.width),
{
    vstd::arithmetic::power2::lemma2_to64();
    lemma_pow2_pos(w.skip);
    lemma_pow2_pos(w.width);
    if w.width > 1 {
        vstd::arithmetic::power2::lemma_pow2_strictly_increases(1, w.width);
    }
    if w.skip > 0 {
        vstd::arithmetic::power2::lemma_pow2_strictly_increases(0, w.skip);
    }
    if s == 0 {
        assert(0int / (pow2(w.skip) as int) == 0) by (nonlinear_arith)
            requires
                pow2(w.skip) > 0,
        ;
        vstd::arithmetic::div_mod::lemma_small_mod(0, pow2(w.width));
    } else if s == 1 {
        if w.skip == 0 {
            vstd::arithmetic::div_mod::lemma_small_mod(1, pow2(w.width));
        } else {
            vstd::arithmetic::div_mod::lemma_basic_div(1, pow2(w.skip) as int);
            vstd::arithmetic::div_mod::lemma_small_mod(0, pow2(w.width));
        }
    }
}

/// The windows from `w` up give a slot the bits of its scalar that they cover.
pub proof fn lemma_covered_is_digits(s: nat, w: Window, num_bits: nat)
    requires
        w.width >= 1,
        w.unit == (w.skip == 0),
    ensures
        covered(s, w, num_bits) == digit_at(
            s,
            w.skip,
            covered_bits(w.skip, w.width, num_bits),
        ),
    decreases num_bits - w.skip,
{
    lemma_contribution_is_digit(s, w);
    if w.skip + w.width < num_bits {
        let above = next_window(w);
        let rest = covered_bits(above.skip, w.width, num_bits);
        lemma_covered_is_digits(s, above, num_bits);
        let x = (s / pow2(w.skip)) as int;
        lemma_pow2_pos(w.skip);
        lemma_pow2_pos(w.width);
        lemma_pow2_pos(rest);
        lemma_pow2_adds(w.width, rest);
        lemma_pow2_adds(w.skip, w.width);
        vstd::arithmetic::div_mod::lemma_div_pos_is_pos(s as int, pow2(w.skip) as int);
        lemma_mod_breakdown(x, pow2(w.width) as int, pow2(rest) as int);
        lemma_div_denominator(s as int, pow2(w.skip) as int, pow2(w.width) as int);
    }
}

/// A scalar of one gets nothing from windows that pass over such scalars.
pub proof fn lemma_covered_one_passed_over(w: Window, num_bits: nat)
    requires
        !w.unit,
    ensures
        covered(1, w, num_bits) == 0,
    decreases num_bits - w.skip,
{
    if !(w.width == 0 || w.skip + w.width >= num_bits) {
        lemma_covered_one_passed_over(next_window(w), num_bits);
        assert(pow2(w.width) * 0 == 0);
    }
}

/// What the windows from any window `w` up give a slot, whichever way `w` treats
/// the scalars of one: to a scalar of one, one where `w` takes it and nothing
/// where not; to every other scalar, its bits from the first bit of `w` up to the
/// last bit that the windows cover.
pub proof fn lemma_covered_from_any_window(s: nat, w: Window, num_bits: nat)
    requires
        w.width >= 1,
    ensures
        covered(s, w, num_bits) == if s == 1 {
            if w.unit {
                1nat
            } else {
                0nat
            }
        } else {
            digit_at(s, w.skip, covered_bits(w.skip, w.width, num_bits))
        },
{
    if s == 1 {
        if !(w.width == 0 || w.skip + w.width >= num_bits) {
            lemma_covered_one_passed_over(next_window(w), num_bits);
            assert(pow2(w.width) * 0 == 0);
        }
    } else {
        let proper = Window { skip: w.skip, width: w.width, unit: w.skip == 0 };
        assert(next_window(proper) == next_window(w));
        lemma_covered_is_digits(s, proper, num_bits);
    }
}

/// The positions of the slots grow with the slots.
pub proof fn lemma_active_before_monotonic(active: Seq<bool>, i: int, n: int)
    requires
        i <= n,
    ensures
        active_before(active, i) <= active_before(active, n),
    decreases n - i,
{
    if i < n {
        lemma_active_before_monotonic(active, i, n - 1);
    }
}

/// No slot among the first `n` has its base at or past the position that the
/// `n`-th slot would take.
pub proof fn lemma_slot_sum_beyond(active: Seq<bool>, values: Seq<nat>, p: int, n: int)
    requires
        p >= active_before(active, n),
    ensures
        slot_sum(active, values, p, n) == 0,
    decreases n,
{
    if n > 0 {
        lemma_slot_sum_beyond(active, values, p, n - 1);
    }
}

/// The base of an active slot stands at a position of its own.
pub proof fn lemma_slot_sum_unique(active: Seq<bool>, values: Seq<nat>, i: int, n: int)
    requires
        0 <= i < n,
        active[i],
    ensures
        slot_sum(active, values, active_before(active, i) as int, n) == values[i],
    decreases n,
{
    let p = active_before(active, i) as int;
    if n == i + 1 {
        lemma_slot_sum_beyond(active, values, p, i);
    } else {
        lemma_slot_sum_unique(active, values, i, n - 1);
        lemma_active_before_monotonic(active, i + 1, n - 1);
    }
}

} // verus!
