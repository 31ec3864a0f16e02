//! Scalars: the integer representation `FrRepr` of an element of the scalar field of
//! BLS12-381, and the digit that a window of bits cuts out of it.

use vstd::prelude::*;
use vstd::arithmetic::power2::{pow2, lemma2_to64, lemma_pow2_adds, lemma_pow2_pos};
use vstd::arithmetic::div_mod::{lemma_mod_mod, lemma_fundamental_div_mod_converse};
use vstd::bits::{lemma_u64_shl_is_mul, lemma_u64_pow2_no_overflow};
use pairing::bls12_381::{Fr, FrRepr};
use pairing::{Field, PrimeField, PrimeFieldRepr};

verus! {

/// `pairing::bls12_381::FrRepr`: four public 64-bit limbs, least significant first.
#[verifier::external_type_specification]
pub struct ExFrRepr(FrRepr);

/// The number of bits of the scalar field's modulus.
pub const NUM_BITS: u32 = 255;

/// Two to the power 64, the weight of one limb against the one before it.
pub open spec fn limb_base() -> int {
    0x1_0000_0000_0000_0000
}

/// The integer that a representation stands for.
pub open spec fn repr_value(e: FrRepr) -> nat {
    (e.0[0] + limb_base() * (e.0[1] + limb_base() * (e.0[2] + limb_base() * e.0[3]))) as nat
}

/// The integers that a sequence of representations stands for.
pub open spec fn scalar_values(exponents: Seq<FrRepr>) -> Seq<nat> {
    Seq::new(exponents.len(), |i: int| repr_value(exponents[i]))
}

/// The digit of `v` in the window of `c` bits that starts at bit `skip`.
pub open spec fn digit_at(v: nat, skip: nat, c: nat) -> nat {
    (v / pow2(skip)) % pow2(c)
}

/// Calls `Fr::zero()` and converts the element to its representation with
/// `into_repr`. Trusted: the field's zero is represented by the integer 0.
#[verifier::external_body]
pub(crate) fn scalar_zero() -> (r: FrRepr)
    ensures
        repr_value(r) == 0,
{
    Fr::zero().into_repr()
}

/// Calls `Fr::one()` and converts the element to its representation with
/// `into_repr`. Trusted: the field's one is represented by the integer 1.
#[verifier::external_body]
pub(crate) fn scalar_one() -> (r: FrRepr)
    ensures
        repr_value(r) == 1,
{
    Fr::one().into_repr()
}

/// Calls `<FrRepr as PrimeFieldRepr>::shr` on a copy of `e`. Trusted: the shift
/// moves every bit down by `amt` places over all four limbs and fills with zeros,
/// so the integer is divided by two to the power `amt`, rounding down.
#[verifier::external_body]
pub(crate) fn scalar_shr(e: &FrRepr, amt: u32) -> (r: FrRepr)
    ensures
        repr_value(r) == repr_value(*e) / pow2(amt as nat),
{
    let mut shifted = *e;
    shifted.shr(amt);
    shifted
}

/// Reads `<Fr as PrimeField>::NUM_BITS`. Trusted: `pairing` sets it to 255.
#[verifier::external_body]
pub(crate) fn scalar_bits() -> (r: u32)
    ensures
        r == NUM_BITS,
{
    Fr::NUM_BITS
}

/// The limbs of a representation, read back from the integer it stands for.
pub proof fn lemma_limbs_of_value(e: FrRepr)
    ensures
        ({
            let v = repr_value(e) as int;
            let b = limb_base();
            &&& e.0[0] == v % b
            &&& e.0[1] == (v / b) % b
            &&& e.0[2] == (v / b / b) % b
            &&& e.0[3] == v / b / b / b
        }),
{
    let b = limb_base();
    let r2 = e.0[2] + b * e.0[3];
    let r1 = e.0[1] + b * r2;
    let v = repr_value(e) as int;
    lemma_fundamental_div_mod_converse(v, b, r1, e.0[0] as int);
    lemma_fundamental_div_mod_converse(r1, b, r2, e.0[1] as int);
    lemma_fundamental_div_mod_converse(r2, b, e.0[3] as int, e.0[2] as int);
}

/// A representation is fixed by the integer it stands for.
pub proof fn lemma_repr_value_injective(a: FrRepr, b: FrRepr)
    ensures
        repr_value(a) == repr_value(b) <==> a == b,
{
    if repr_value(a) == repr_value(b) {
        lemma_limbs_of_value(a);
        lemma_limbs_of_value(b);
        assert(a.0 == b.0);
    }
}

/// Whether two representations stand for the same integer.
pub fn same_scalar(a: &FrRepr, b: &FrRepr) -> (r: bool)
    ensures
        r == (repr_value(*a) == repr_value(*b)),
{
    proof {
        lemma_repr_value_injective(*a, *b);
    }
    a.0[0] == b.0[0] && a.0[1] == b.0[1] && a.0[2] == b.0[2] && a.0[3] == b.0[3]
}

/// The digit of `e` in the window of `c` bits that starts at bit `skip`: the scalar
/// shifted down by `skip`, its lowest limb taken modulo two to the power `c`.
pub fn window_digit(e: &FrRepr, skip: u32, c: u32) -> (d: u64)
    requires
        c < 64,
    ensures
        d == digit_at(repr_value(*e), skip as nat, c as nat),
        d < pow2(c as nat),
{
    let shifted = scalar_shr(e, skip);
    let low: u64 = shifted.0[0];
    let modulus: u64 = 1u64 << c;
    proof {
        let q = repr_value(shifted);
        let width = c as nat;
        lemma2_to64();
        lemma_u64_pow2_no_overflow(width);
        lemma_u64_shl_is_mul(1u64, c as u64);
        lemma_pow2_adds(width, (64 - width) as nat);
        lemma_pow2_pos((64 - width) as nat);
        lemma_limbs_of_value(shifted);
        lemma_mod_mod(q as int, pow2(width) as int, pow2((64 - width) as nat) as int);
    }
    low % modulus
}

} // verus!
