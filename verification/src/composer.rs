//! The windows of a multi-scalar multiplication, joined.
//!
//! The bits of the scalars are cut into windows of one width. Each window is
//! summed on its own; the sums are joined from the most significant window down,
//! each doubled once for every bit of the window below it before that window is
//! added.

use vstd::prelude::*;
use std::sync::Arc;
use pairing::bls12_381::FrRepr;
use crate::curve::AffinePoint;
use crate::density::{density_flags, QueryDensity};
use crate::engine::window_sum_from;
use crate::model::{
    doubled_times, eval, first_window, multiexp_failure, multiexp_term, next_window, Term,
    Window,
};
use crate::scalar::{scalar_bits, scalar_values, NUM_BITS};
use crate::source::{SourceBuilder, SynthesisError};

verus! {

/// The integer part of the `k`-th power of Euler's number, for `k` up to 44, the
/// last one that fits 64 bits.
pub const EXP_FLOOR: [u64; 45] = [
    1,
    2,
    7,
    20,
    54,
    148,
    403,
    1096,
    2980,
    8103,
    22026,
    59874,
    162754,
    442413,
    1202604,
    3269017,
    8886110,
    24154952,
    65659969,
    178482300,
    485165195,
    1318815734,
    3584912846,
    9744803446,
    26489122129,
    72004899337,
    195729609428,
    532048240601,
    1446257064291,
    3931334297144,
    10686474581524,
    29048849665247,
    78962960182680,
    214643579785916,
    583461742527454,
    1586013452313430,
    4311231547115195,
    11719142372802611,
    31855931757113756,
    86593400423993746,
    235385266837019985,
    639843493530054949,
    1739274941520501047,
    4727839468229346561,
    12851600114359308275,
];

/// The least `c` from `from` on whose power of Euler's number is at least `n`:
/// the natural logarithm of `n`, rounded up, where that is `from` or more.
pub open spec fn log_ceil_from(n: nat, from: nat) -> nat
    decreases 45 - from,
{
    if from >= 45 || n <= EXP_FLOOR[from as int] {
        from
    } else {
        log_ceil_from(n, from + 1)
    }
}

/// The window width for `n` scalars: 3 below 32 scalars, and from there on the
/// natural logarithm of `n`, rounded up.
pub open spec fn width_for(n: nat) -> nat {
    if n < 32 {
        3
    } else {
        log_ceil_from(n, 4)
    }
}

/// The width for `n` scalars is at least 3 and below the bits of a `usize`.
pub proof fn lemma_width_for_bounds(n: nat)
    requires
        n <= usize::MAX,
    ensures
        3 <= width_for(n) < usize::BITS,
{
    if n >= 32 {
        lemma_log_ceil_bounds(n, 4);
    }
}

proof fn lemma_log_ceil_bounds(n: nat, from: nat)
    requires
        n <= usize::MAX,
        4 <= from <= 23,
    ensures
        from <= log_ceil_from(n, from) <= 45,
        n <= u32::MAX ==> log_ceil_from(n, from) <= 23,
        log_ceil_from(n, from) < usize::BITS,
    decreases 45 - from,
{
    if from < 23 {
        if n > EXP_FLOOR[from as int] {
            lemma_log_ceil_bounds(n, from + 1);
        }
    } else {
        lemma_log_ceil_upper(n, from);
    }
}

proof fn lemma_log_ceil_upper(n: nat, from: nat)
    requires
        from <= 45,
    ensures
        from <= log_ceil_from(n, from) <= 45,
    decreases 45 - from,
{
    if from < 45 && n > EXP_FLOOR[from as int] {
        lemma_log_ceil_upper(n, from + 1);
    }
}

/// The window width for `n` scalars.
pub fn window_width(n: usize) -> (c: u32)
    ensures
        c == width_for(n as nat),
        3 <= c < usize::BITS,
{
    proof {
        lemma_width_for_bounds(n as nat);
    }
    if n < 32 {
        return 3;
    }
    let mut c: u32 = 4;
    while c < 45 && n as u64 > EXP_FLOOR[c as usize]
        invariant
            4 <= c <= 45,
            log_ceil_from(n as nat, c as nat) == log_ceil_from(n as nat, 4),
        decreases 45 - c,
    {
        c += 1;
    }
    c
}

/// A point doubled `times` times.
pub open spec fn doubled_point<G: AffinePoint>(p: G::Projective, times: nat) -> G::Projective
    decreases times,
{
    if times == 0 {
        p
    } else {
        G::point_doubled(doubled_point::<G>(p, (times - 1) as nat))
    }
}

/// A term doubled stands for the point doubled.
pub proof fn lemma_eval_doubled<G: AffinePoint>(
    t: Term,
    times: nat,
    bases: Seq<G>,
    zero: G::Projective,
)
    ensures
        eval(doubled_times(t, times), bases, zero) == doubled_point::<G>(
            eval(t, bases, zero),
            times,
        ),
    decreases times,
{
    if times > 0 {
        lemma_eval_doubled(t, (times - 1) as nat, bases, zero);
    }
}

/// Joins the sum of a window to the sum of the windows above it: `higher` is
/// doubled `c` times, which moves it up by the `c` bits of the window, and `this`
/// is added.
pub fn join_windows<G: AffinePoint>(
    this: &G::Projective,
    higher: G::Projective,
    c: u32,
) -> (joined: G::Projective)
    ensures
        joined == G::point_sum(doubled_point::<G>(higher, c as nat), *this),
{
    let mut higher = higher;
    let ghost start = higher;
    let mut done: u32 = 0;
    while done < c
        invariant
            done <= c,
            higher == doubled_point::<G>(start, done as nat),
        decreases c - done,
    {
        G::double(&mut higher);
        done += 1;
    }
    G::add_assign(&mut higher, this);
    higher
}

/// The first bit of the window above the one at `skip`, where the scalar field
/// has bits left for one.
pub fn window_above(skip: u32, c: u32) -> (above: Option<u32>)
    ensures
        above == if skip + c < NUM_BITS {
            Some((skip + c) as u32)
        } else {
            None
        },
{
    let num_bits: u32 = scalar_bits();
    if skip >= num_bits || c >= num_bits - skip {
        None
    } else {
        Some(skip + c)
    }
}

/// The sum of the windows of width `c` from bit `skip` up to the last bit of the
/// scalar field, joined. `handle_trivial` is handed to the window at `skip`; the
/// windows above it pass over the scalars that are exactly one. Every accumulator
/// of every window starts as a copy of `zero`.
///
/// Fails with the error of the lowest window that fails.
pub fn multiexp_from<G: AffinePoint, B: SourceBuilder<G>, D: QueryDensity>(
    zero: &G::Projective,
    bases: &B,
    density_map: &D,
    exponents: &Vec<FrRepr>,
    skip: u32,
    c: u32,
    handle_trivial: bool,
) -> (r: Result<G::Projective, SynthesisError>)
    requires
        1 <= c < usize::BITS,
        density_map.size() matches Some(size) ==> size == exponents.len(),
    ensures
        ({
            let active = density_flags(density_map, exponents@.len());
            let scalars = scalar_values(exponents@);
            let w = Window { skip: skip as nat, width: c as nat, unit: handle_trivial };
            match r {
                Ok(sum) => {
                    &&& multiexp_failure(bases.bases(), active, scalars, w, NUM_BITS as nat) is None
                    &&& sum == eval(
                        multiexp_term(active, scalars, w, NUM_BITS as nat),
                        bases.bases(),
                        *zero,
                    )
                },
                Err(e) => multiexp_failure(bases.bases(), active, scalars, w, NUM_BITS as nat)
                    == Some(e),
            }
        }),
    decreases NUM_BITS - skip,
{
    let ghost active = density_flags(density_map, exponents@.len());
    let ghost scalars = scalar_values(exponents@);
    let ghost w = Window { skip: skip as nat, width: c as nat, unit: handle_trivial };
    let this = window_sum_from(zero, bases, density_map, exponents, skip, c, handle_trivial)?;
    match window_above(skip, c) {
        None => Ok(this),
        Some(next) => {
            let higher = multiexp_from(zero, bases, density_map, exponents, next, c, false)?;
            proof {
                lemma_eval_doubled(
                    multiexp_term(active, scalars, next_window(w), NUM_BITS as nat),
                    c as nat,
                    bases.bases(),
                    *zero,
                );
            }
            Ok(join_windows::<G>(&this, higher, c))
        },
    }
}

/// The sum of the windows of width `c` from bit `skip` up, as `multiexp_from`
/// computes it, from a point at infinity that is drawn once for all windows.
pub fn multiexp_inner<G: AffinePoint, B: SourceBuilder<G>, D: QueryDensity>(
    bases: &B,
    density_map: &D,
    exponents: &Vec<FrRepr>,
    skip: u32,
    c: u32,
    handle_trivial: bool,
) -> (r: Result<G::Projective, SynthesisError>)
    requires
        1 <= c < usize::BITS,
        density_map.size() matches Some(size) ==> size == exponents.len(),
    ensures
        ({
            let active = density_flags(density_map, exponents@.len());
            let scalars = scalar_values(exponents@);
            let w = Window { skip: skip as nat, width: c as nat, unit: handle_trivial };
            match r {
                Ok(sum) => {
                    &&& multiexp_failure(bases.bases(), active, scalars, w, NUM_BITS as nat) is None
                    &&& exists|zero: G::Projective|
                        #[trigger] G::is_zero_point(zero) && sum == eval(
                            multiexp_term(active, scalars, w, NUM_BITS as nat),
                            bases.bases(),
                            zero,
                        )
                },
                Err(e) => multiexp_failure(bases.bases(), active, scalars, w, NUM_BITS as nat)
                    == Some(e),
            }
        }),
{
    let zero = G::identity();
    multiexp_from(&zero, bases, density_map, exponents, skip, c, handle_trivial)
}

/// The multi-scalar multiplication of the bases by the scalars `exponents`: every
/// base of an active slot, times the scalar of that slot, all summed.
///
/// The density map tells which slots are active; the bases hold one point for each
/// active slot, in order. A map that keeps a size must keep the number of scalars.
/// Fails where the bases run out, and where the base of a scalar that enters the
/// sum is the point at infinity.
///
/// The result is the point of `multiexp_term` over a point at infinity that is
/// drawn once. The modules `laws` and `reading` show what that term amounts to:
/// every base enters it as often as its scalar says.
pub fn multiexp<G: AffinePoint, B: SourceBuilder<G>, D: QueryDensity>(
    bases: B,
    density_map: D,
    exponents: Arc<Vec<FrRepr>>,
) -> (r: Result<G::Projective, SynthesisError>)
    requires
        density_map.size() matches Some(size) ==> size == exponents@.len(),
    ensures
        ({
            let active = density_flags(&density_map, exponents@.len());
            let scalars = scalar_values(exponents@);
            let w = first_window(width_for(exponents@.len()));
            match r {
                Ok(sum) => {
                    &&& multiexp_failure(bases.bases(), active, scalars, w, NUM_BITS as nat) is None
                    &&& exists|zero: G::Projective|
                        #[trigger] G::is_zero_point(zero) && sum == eval(
                            multiexp_term(active, scalars, w, NUM_BITS as nat),
                            bases.bases(),
                            zero,
                        )
                },
                Err(e) => multiexp_failure(bases.bases(), active, scalars, w, NUM_BITS as nat)
                    == Some(e),
            }
        }),
{
    let c: u32 = window_width(exponents.len());
    multiexp_inner(&bases, &density_map, &*exponents, 0, c, true)
}

} // verus!
