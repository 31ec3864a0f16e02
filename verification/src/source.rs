//! Sources of bases: a cursor that hands out the bases one by one, or passes over
//! them unread.

use vstd::prelude::*;
use std::sync::Arc;
use crate::curve::AffinePoint;

verus! {

/// Why a multi-scalar multiplication fails.
#[derive(Debug, Clone, Copy, PartialEq, Eq, Structural)]
pub enum SynthesisError {
    /// The source ran out of bases before the scan was over.
    SourceExhausted,
    /// A base that was to be added is the point at infinity.
    IdentityPoint,
}

/// A cursor over bases: it hands them out in order, one at a time, and can pass
/// over some without reading them. An array in memory is one; a reader of stored
/// points can be another.
pub trait Source<G: AffinePoint> {
    /// The bases that the source has yet to hand out, the next one first.
    spec fn remaining(&self) -> Seq<G>;

    /// Adds the next base to `to` and moves past it. Fails where no base is left,
    /// and where the next base is the point at infinity.
    fn add_assign_mixed(&mut self, to: &mut G::Projective) -> (r: Result<(), SynthesisError>)
        ensures
            match r {
                Ok(_) => {
                    &&& old(self).remaining().len() > 0
                    &&& !old(self).remaining()[0].is_identity()
                    &&& final(self).remaining() == old(self).remaining().skip(1)
                    &&& *final(to) == G::mixed_sum(*old(to), old(self).remaining()[0])
                },
                Err(SynthesisError::SourceExhausted) => old(self).remaining().len() == 0,
                Err(SynthesisError::IdentityPoint) => {
                    &&& old(self).remaining().len() > 0
                    &&& old(self).remaining()[0].is_identity()
                },
            },
    ;

    /// Moves past the next `amt` bases without reading them. Fails where fewer
    /// than `amt` are left.
    fn skip(&mut self, amt: usize) -> (r: Result<(), SynthesisError>)
        ensures
            match r {
                Ok(_) => {
                    &&& amt <= old(self).remaining().len()
                    &&& final(self).remaining() == old(self).remaining().skip(amt as int)
                },
                Err(e) => {
                    &&& e == SynthesisError::SourceExhausted
                    &&& old(self).remaining().len() < amt
                },
            },
    ;
}

/// Builds sources over one sequence of bases. Every source it builds starts at
/// the first base again, so that each window has a cursor of its own.
pub trait SourceBuilder<G: AffinePoint>: Send + Sync + 'static {
    type Source: Source<G>;

    /// The bases that a source built from this object hands out, in order.
    spec fn bases(&self) -> Seq<G>;

    /// A source at its first base.
    fn new(&self) -> (source: Self::Source)
        ensures
            source.remaining() == self.bases(),
    ;
}

/// The bases of a shared array from position `start` on.
pub open spec fn bases_from<G>(all: Seq<G>, start: usize) -> Seq<G> {
    if start <= all.len() {
        all.skip(start as int)
    } else {
        Seq::empty()
    }
}

/// Calls `Arc::clone`. Trusted: the new handle points to the same value.
#[verifier::external_body]
fn share<G>(array: &Arc<Vec<G>>) -> (handle: Arc<Vec<G>>)
    ensures
        handle == *array,
{
    array.clone()
}

/// A shared array of bases and the position of the first one to hand out.
impl<G: AffinePoint> SourceBuilder<G> for (Arc<Vec<G>>, usize) {
    type Source = (Arc<Vec<G>>, usize);

    open spec fn bases(&self) -> Seq<G> {
        bases_from(self.0@, self.1)
    }

    fn new(&self) -> (source: (Arc<Vec<G>>, usize))
        ensures
            source.0 == self.0,
            source.1 == self.1,
    {
        (share(&self.0), self.1)
    }
}

/// A shared array of bases and the position of the next one.
impl<G: AffinePoint> Source<G> for (Arc<Vec<G>>, usize) {
    open spec fn remaining(&self) -> Seq<G> {
        bases_from(self.0@, self.1)
    }

    fn add_assign_mixed(&mut self, to: &mut G::Projective) -> (r: Result<(), SynthesisError>)
        ensures
            r is Err ==> *final(self) == *old(self) && *final(to) == *old(to),
            r is Ok ==> final(self).0 == old(self).0 && final(self).1 == old(self).1 + 1,
    {
        if self.0.len() <= self.1 {
            return Err(SynthesisError::SourceExhausted);
        }
        if self.0[self.1].is_infinity() {
            return Err(SynthesisError::IdentityPoint);
        }
        G::add_assign_mixed(to, &self.0[self.1]);
        self.1 += 1;
        Ok(())
    }

    fn skip(&mut self, amt: usize) -> (r: Result<(), SynthesisError>)
        ensures
            r is Err ==> *final(self) == *old(self),
            r is Ok ==> final(self).0 == old(self).0 && final(self).1 == old(self).1 + amt,
    {
        let left: usize = if self.1 <= self.0.len() {
            self.0.len() - self.1
        } else {
            0
        };
        if left < amt {
            return Err(SynthesisError::SourceExhausted);
        }
        self.1 += amt;
        assert(bases_from(self.0@, self.1) =~= bases_from(old(self).0@, old(self).1).skip(
            amt as int,
        ));
        Ok(())
    }
}

} // verus!
