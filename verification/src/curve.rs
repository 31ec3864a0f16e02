//! The curve groups: points of G1 and of G2 of BLS12-381 as the `pairing` crate
//! holds them.
//!
//! A point is opaque to the verifier. What `pairing` computes on points is given a
//! name here, and every contract of the library that speaks of a point speaks of it
//! through these names. Nothing is assumed of the names beyond what the wrappers
//! below state: in particular no group law. The point that a sum starts from is
//! known only as a point that `is_zero` accepts.
//!
//! The bucket method itself is written once, over the trait `AffinePoint`, which
//! both groups implement.

use vstd::prelude::*;
use pairing::bls12_381::{G1, G1Affine, G2, G2Affine};
use pairing::{CurveAffine, CurveProjective};

verus! {

/// `pairing::bls12_381::G1`: a point of G1 in Jacobian coordinates. Its
/// coordinates are private to `pairing`; a value is carried from one call to the
/// next and never looked into.
#[verifier::external_type_specification]
#[verifier::external_body]
pub struct ExG1(G1);

/// `pairing::bls12_381::G1Affine`: a point of G1 in affine coordinates, or the
/// point at infinity. Its fields are private to `pairing`.
#[verifier::external_type_specification]
#[verifier::external_body]
pub struct ExG1Affine(G1Affine);

/// `pairing::bls12_381::G2`: a point of G2 in Jacobian coordinates. Its
/// coordinates are private to `pairing`.
#[verifier::external_type_specification]
#[verifier::external_body]
pub struct ExG2(G2);

/// `pairing::bls12_381::G2Affine`: a point of G2 in affine coordinates, or the
/// point at infinity. Its fields are private to `pairing`.
#[verifier::external_type_specification]
#[verifier::external_body]
pub struct ExG2Affine(G2Affine);

/// What `p.is_zero()` returns in G1: whether `p` is the point at infinity, which
/// in Jacobian coordinates is to say that its third coordinate is zero.
pub uninterp spec fn g1_is_zero(p: G1) -> bool;

/// What `a.add_assign(&b)` leaves in `a`, in G1.
pub uninterp spec fn g1_sum(a: G1, b: G1) -> G1;

/// What `a.double()` leaves in `a`, in G1.
pub uninterp spec fn g1_doubled(a: G1) -> G1;

/// What `a.add_assign_mixed(&b)` leaves in `a`, in G1.
pub uninterp spec fn g1_mixed_sum(a: G1, b: G1Affine) -> G1;

/// What `b.is_zero()` returns in G1: whether `b` is the point at infinity.
pub uninterp spec fn g1_is_identity(b: G1Affine) -> bool;

/// What `p.is_zero()` returns in G2: whether `p` is the point at infinity.
pub uninterp spec fn g2_is_zero(p: G2) -> bool;

/// What `a.add_assign(&b)` leaves in `a`, in G2.
pub uninterp spec fn g2_sum(a: G2, b: G2) -> G2;

/// What `a.double()` leaves in `a`, in G2.
pub uninterp spec fn g2_doubled(a: G2) -> G2;

/// What `a.add_assign_mixed(&b)` leaves in `a`, in G2.
pub uninterp spec fn g2_mixed_sum(a: G2, b: G2Affine) -> G2;

/// What `b.is_zero()` returns in G2: whether `b` is the point at infinity.
pub uninterp spec fn g2_is_identity(b: G2Affine) -> bool;

/// Calls `<G1 as CurveProjective>::zero`. Trusted: the point it builds has the
/// third coordinate zero, which is what `is_zero` tests.
#[verifier::external_body]
fn g1_point_zero() -> (r: G1)
    ensures
        g1_is_zero(r),
{
    G1::zero()
}

/// Calls `<G1 as CurveProjective>::is_zero`, which tests the point's third
/// coordinate. Trusted: the answer depends on the point alone; `g1_is_zero`
/// names it.
#[verifier::external_body]
fn g1_point_is_zero(p: &G1) -> (r: bool)
    ensures
        r == g1_is_zero(*p),
{
    p.is_zero()
}

/// Calls `<G1 as CurveProjective>::add_assign`. Trusted: the value left in `a`
/// depends on the two points alone; `g1_sum` names it.
#[verifier::external_body]
fn g1_point_add(a: &mut G1, b: &G1)
    ensures
        *final(a) == g1_sum(*old(a), *b),
{
    a.add_assign(b);
}

/// Calls `<G1 as CurveProjective>::double`. Trusted: the value left in `a`
/// depends on the point alone; `g1_doubled` names it.
#[verifier::external_body]
fn g1_point_double(a: &mut G1)
    ensures
        *final(a) == g1_doubled(*old(a)),
{
    a.double();
}

/// Calls `<G1 as CurveProjective>::add_assign_mixed`. Trusted: the value left in
/// `a` depends on the two points alone; `g1_mixed_sum` names it.
#[verifier::external_body]
fn g1_point_add_mixed(a: &mut G1, b: &G1Affine)
    ensures
        *final(a) == g1_mixed_sum(*old(a), *b),
{
    a.add_assign_mixed(b);
}

/// Calls `<G1Affine as CurveAffine>::is_zero`, which reads the point's
/// `infinity` flag. Trusted: the answer depends on the point alone;
/// `g1_is_identity` names it.
#[verifier::external_body]
fn g1_point_is_identity(b: &G1Affine) -> (r: bool)
    ensures
        r == g1_is_identity(*b),
{
    b.is_zero()
}

/// Calls `<G2 as CurveProjective>::zero`. Trusted: the point it builds has the
/// third coordinate zero, which is what `is_zero` tests.
#[verifier::external_body]
fn g2_point_zero() -> (r: G2)
    ensures
        g2_is_zero(r),
{
    G2::zero()
}

/// Calls `<G2 as CurveProjective>::is_zero`, which tests the point's third
/// coordinate. Trusted: the answer depends on the point alone; `g2_is_zero`
/// names it.
#[verifier::external_body]
fn g2_point_is_zero(p: &G2) -> (r: bool)
    ensures
        r == g2_is_zero(*p),
{
    p.is_zero()
}

/// Calls `<G2 as CurveProjective>::add_assign`. Trusted: the value left in `a`
/// depends on the two points alone; `g2_sum` names it.
#[verifier::external_body]
fn g2_point_add(a: &mut G2, b: &G2)
    ensures
        *final(a) == g2_sum(*old(a), *b),
{
    a.add_assign(b);
}

/// Calls `<G2 as CurveProjective>::double`. Trusted: the value left in `a`
/// depends on the point alone; `g2_doubled` names it.
#[verifier::external_body]
fn g2_point_double(a: &mut G2)
    ensures
        *final(a) == g2_doubled(*old(a)),
{
    a.double();
}

/// Calls `<G2 as CurveProjective>::add_assign_mixed`. Trusted: the value left in
/// `a` depends on the two points alone; `g2_mixed_sum` names it.
#[verifier::external_body]
fn g2_point_add_mixed(a: &mut G2, b: &G2Affine)
    ensures
        *final(a) == g2_mixed_sum(*old(a), *b),
{
    a.add_assign_mixed(b);
}

/// Calls `<G2Affine as CurveAffine>::is_zero`, which reads the point's
/// `infinity` flag. Trusted: the answer depends on the point alone;
/// `g2_is_identity` names it.
#[verifier::external_body]
fn g2_point_is_identity(b: &G2Affine) -> (r: bool)
    ensures
        r == g2_is_identity(*b),
{
    b.is_zero()
}

/// A point in affine coordinates that can serve as a base: what the bucket method
/// asks of a curve group. Sums are kept in the projective coordinates of the same
/// group. The scalars are those of the scalar field of BLS12-381, which both of
/// its groups share.
pub trait AffinePoint: Sized + Send + Sync + 'static {
    /// A point of the same group in projective coordinates.
    type Projective: Copy;

    /// Whether a point in projective coordinates is the point at infinity, the
    /// point that a sum starts from. Its coordinates are not fixed by that.
    spec fn is_zero_point(p: Self::Projective) -> bool;

    /// The sum of two points.
    spec fn point_sum(a: Self::Projective, b: Self::Projective) -> Self::Projective;

    /// A point, doubled.
    spec fn point_doubled(a: Self::Projective) -> Self::Projective;

    /// A point with a base added to it.
    spec fn mixed_sum(a: Self::Projective, b: Self) -> Self::Projective;

    /// Whether a base is the point at infinity.
    spec fn is_identity(&self) -> bool;

    /// A point that a sum can start from: the point at infinity.
    fn identity() -> (r: Self::Projective)
        ensures
            Self::is_zero_point(r),
    ;

    /// Whether `p` is the point at infinity.
    fn is_zero_sum(p: &Self::Projective) -> (r: bool)
        ensures
            r == Self::is_zero_point(*p),
    ;

    /// Adds `b` to `a`.
    fn add_assign(a: &mut Self::Projective, b: &Self::Projective)
        ensures
            *final(a) == Self::point_sum(*old(a), *b),
    ;

    /// Doubles `a`.
    fn double(a: &mut Self::Projective)
        ensures
            *final(a) == Self::point_doubled(*old(a)),
    ;

    /// Adds the base `b` to `a`.
    fn add_assign_mixed(a: &mut Self::Projective, b: &Self)
        ensures
            *final(a) == Self::mixed_sum(*old(a), *b),
    ;

    /// Whether the base is the point at infinity.
    fn is_infinity(&self) -> (r: bool)
        ensures
            r == self.is_identity(),
    ;
}

impl AffinePoint for G1Affine {
    type Projective = G1;

    open spec fn is_zero_point(p: G1) -> bool {
        g1_is_zero(p)
    }

    open spec fn point_sum(a: G1, b: G1) -> G1 {
        g1_sum(a, b)
    }

    open spec fn point_doubled(a: G1) -> G1 {
        g1_doubled(a)
    }

    open spec fn mixed_sum(a: G1, b: G1Affine) -> G1 {
        g1_mixed_sum(a, b)
    }

    open spec fn is_identity(&self) -> bool {
        g1_is_identity(*self)
    }

    fn identity() -> (r: G1) {
        g1_point_zero()
    }

    fn is_zero_sum(p: &G1) -> (r: bool) {
        g1_point_is_zero(p)
    }

    fn add_assign(a: &mut G1, b: &G1) {
        g1_point_add(a, b)
    }

    fn double(a: &mut G1) {
        g1_point_double(a)
    }

    fn add_assign_mixed(a: &mut G1, b: &G1Affine) {
        g1_point_add_mixed(a, b)
    }

    fn is_infinity(&self) -> (r: bool) {
        g1_point_is_identity(self)
    }
}

impl AffinePoint for G2Affine {
    type Projective = G2;

    open spec fn is_zero_point(p: G2) -> bool {
        g2_is_zero(p)
    }

    open spec fn point_sum(a: G2, b: G2) -> G2 {
        g2_sum(a, b)
    }

    open spec fn point_doubled(a: G2) -> G2 {
        g2_doubled(a)
    }

    open spec fn mixed_sum(a: G2, b: G2Affine) -> G2 {
        g2_mixed_sum(a, b)
    }

    open spec fn is_identity(&self) -> bool {
        g2_is_identity(*self)
    }

    fn identity() -> (r: G2) {
        g2_point_zero()
    }

    fn is_zero_sum(p: &G2) -> (r: bool) {
        g2_point_is_zero(p)
    }

    fn add_assign(a: &mut G2, b: &G2) {
        g2_point_add(a, b)
    }

    fn double(a: &mut G2) {
        g2_point_double(a)
    }

    fn add_assign_mixed(a: &mut G2, b: &G2Affine) {
        g2_point_add_mixed(a, b)
    }

    fn is_infinity(&self) -> (r: bool) {
        g2_point_is_identity(self)
    }
}

} // verus!
