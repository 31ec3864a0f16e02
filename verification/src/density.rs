//! Density maps: which of the scalar slots are active.
//!
//! An active slot has a base in the source and is consumed by a scan; an inactive
//! slot has none and is passed over.

use vstd::prelude::*;
use std::sync::Arc;
use bit_vec::BitVec;

verus! {

/// `bit_vec::BitVec`: a growable vector of bits. Its storage is private to
/// `bit_vec`.
#[verifier::external_type_specification]
#[verifier::external_body]
#[verifier::reject_recursive_types(B)]
pub struct ExBitVec<B>(BitVec<B>);

/// The bits that a `BitVec` holds, in index order.
pub uninterp spec fn bits(bv: BitVec<u32>) -> Seq<bool>;

/// Calls `BitVec::new`. Trusted: the new vector holds no bit.
#[verifier::external_body]
fn bits_new() -> (bv: BitVec<u32>)
    ensures
        bits(bv) == Seq::<bool>::empty(),
{
    BitVec::new()
}

/// Calls `BitVec::push`, which panics when the length would pass `usize::MAX`.
/// Trusted: the bit is appended and the bits before it stay.
#[verifier::external_body]
fn bits_push(bv: &mut BitVec<u32>, bit: bool)
    requires
        bits(*old(bv)).len() < usize::MAX,
    ensures
        bits(*final(bv)) == bits(*old(bv)).push(bit),
{
    bv.push(bit);
}

/// Calls `BitVec::get`. Trusted: the bit at `i`, or `None` at and past the length.
#[verifier::external_body]
fn bits_get(bv: &BitVec<u32>, i: usize) -> (r: Option<bool>)
    ensures
        r == if i < bits(*bv).len() {
            Some(bits(*bv)[i as int])
        } else {
            None
        },
{
    bv.get(i)
}

/// Calls `BitVec::set`, which panics at and past the length. Trusted: the bit at
/// `i` becomes `bit` and every other bit stays.
#[verifier::external_body]
fn bits_set(bv: &mut BitVec<u32>, i: usize, bit: bool)
    requires
        i < bits(*old(bv)).len(),
    ensures
        bits(*final(bv)) == bits(*old(bv)).update(i as int, bit),
{
    bv.set(i, bit);
}

/// Calls `<BitVec as Clone>::clone`, which copies the storage and the length.
/// Trusted: the copy holds the same bits.
#[verifier::external_body]
fn bits_clone(bv: &BitVec<u32>) -> (copy: BitVec<u32>)
    ensures
        bits(copy) == bits(*bv),
{
    bv.clone()
}

/// Calls `BitVec::len`. Trusted: the number of bits held.
#[verifier::external_body]
fn bits_len(bv: &BitVec<u32>) -> (n: usize)
    ensures
        n == bits(*bv).len(),
{
    bv.len()
}

/// The number of active slots among the first `n` of `flags`.
pub open spec fn active_before(flags: Seq<bool>, n: int) -> nat
    decreases n,
{
    if n <= 0 {
        0
    } else {
        active_before(flags, n - 1) + if flags[n - 1] {
            1nat
        } else {
            0nat
        }
    }
}

/// The number of active slots of `flags`.
pub open spec fn active_count(flags: Seq<bool>) -> nat {
    active_before(flags, flags.len() as int)
}

/// No more slots are active among the first `n` than there are.
pub proof fn lemma_active_before_bounded(flags: Seq<bool>, n: int)
    requires
        0 <= n,
    ensures
        active_before(flags, n) <= n,
    decreases n,
{
    if n > 0 {
        lemma_active_before_bounded(flags, n - 1);
    }
}

/// The count over the first `n` slots reads those slots only.
pub proof fn lemma_active_before_agrees(a: Seq<bool>, b: Seq<bool>, n: int)
    requires
        0 <= n <= a.len(),
        n <= b.len(),
        forall|i: int| 0 <= i < n ==> a[i] == b[i],
    ensures
        active_before(a, n) == active_before(b, n),
    decreases n,
{
    if n > 0 {
        lemma_active_before_agrees(a, b, n - 1);
    }
}

/// Appending an inactive slot leaves the count as it was.
pub proof fn lemma_active_count_push(flags: Seq<bool>, flag: bool)
    ensures
        active_count(flags.push(flag)) == active_count(flags) + if flag {
            1nat
        } else {
            0nat
        },
{
    lemma_active_before_agrees(flags, flags.push(flag), flags.len() as int);
}

/// Setting slot `idx` changes the count over the first `n` slots by what the slot
/// itself changes, where it lies among them.
pub proof fn lemma_active_before_update(flags: Seq<bool>, idx: int, flag: bool, n: int)
    requires
        0 <= idx < flags.len(),
        0 <= n <= flags.len(),
    ensures
        active_before(flags.update(idx, flag), n) + (if idx < n && flags[idx] {
            1nat
        } else {
            0nat
        }) == active_before(flags, n) + (if idx < n && flag {
            1nat
        } else {
            0nat
        }),
    decreases n,
{
    if n > 0 {
        lemma_active_before_update(flags, idx, flag, n - 1);
    }
}

/// Activating a slot sets its flag and raises the count of active slots by one
/// where the slot was inactive. Activating it again changes neither the flags nor
/// the count.
pub proof fn theorem_activation_idempotent(flags: Seq<bool>, idx: int)
    requires
        0 <= idx < flags.len(),
    ensures
        active_count(flags.update(idx, true)) == active_count(flags) + if flags[idx] {
            0nat
        } else {
            1nat
        },
        flags.update(idx, true).update(idx, true) == flags.update(idx, true),
        active_count(flags.update(idx, true).update(idx, true)) == active_count(
            flags.update(idx, true),
        ),
{
    lemma_active_before_update(flags, idx, true, flags.len() as int);
}

/// A density map: tells of each slot of a scan whether it is active.
pub trait QueryDensity {
    /// The number of slots that the map covers, where it keeps one; `None` where
    /// it covers any number.
    spec fn size(&self) -> Option<nat>;

    /// Whether slot `i` is active.
    spec fn active(&self, i: int) -> bool;

    /// The number of slots that the map covers, if it keeps one.
    fn get_query_size(&self) -> (r: Option<usize>)
        ensures
            r matches Some(n) ==> self.size() == Some(n as nat),
            r is None ==> self.size() is None,
    ;

    /// Whether slot `idx` is active.
    fn is_active(&self, idx: usize) -> (b: bool)
        requires
            self.size() matches Some(n) ==> idx < n,
        ensures
            b == self.active(idx as int),
    ;
}

/// A shared density map is the map it points to.
impl<D: QueryDensity> QueryDensity for Arc<D> {
    open spec fn size(&self) -> Option<nat> {
        (**self).size()
    }

    open spec fn active(&self, i: int) -> bool {
        (**self).active(i)
    }

    fn get_query_size(&self) -> (r: Option<usize>) {
        (**self).get_query_size()
    }

    fn is_active(&self, idx: usize) -> (b: bool) {
        (**self).is_active(idx)
    }
}

/// The flags of the first `n` slots of a density map.
pub open spec fn density_flags<D: QueryDensity>(density: &D, n: nat) -> Seq<bool> {
    Seq::new(n, |i: int| density.active(i))
}

/// The density map in which every slot is active. It covers any number of slots.
#[derive(Clone, Copy)]
pub struct FullDensity;

impl AsRef<FullDensity> for FullDensity {
    fn as_ref(&self) -> (r: &FullDensity)
        ensures
            r == self,
    {
        self
    }
}

impl QueryDensity for FullDensity {
    open spec fn size(&self) -> Option<nat> {
        None
    }

    open spec fn active(&self, i: int) -> bool {
        true
    }

    fn get_query_size(&self) -> (r: Option<usize>) {
        None
    }

    fn is_active(&self, idx: usize) -> (b: bool) {
        true
    }
}

/// A density map that is built slot by slot: a bit for each slot and the number of
/// bits that are set.
pub struct DensityTracker {
    bv: BitVec,
    total_density: usize,
}

impl View for DensityTracker {
    type V = Seq<bool>;

    /// The flag of each slot, in index order.
    closed spec fn view(&self) -> Seq<bool> {
        bits(self.bv)
    }
}

impl Clone for DensityTracker {
    /// A tracker with the same slots and the same count.
    fn clone(&self) -> (copy: DensityTracker)
        ensures
            copy@ == self@,
            copy.wf() == self.wf(),
    {
        DensityTracker { bv: bits_clone(&self.bv), total_density: self.total_density }
    }
}

impl DensityTracker {
    /// The count kept beside the bits is the number of bits that are set, and the
    /// number of slots fits a `usize`.
    pub closed spec fn wf(&self) -> bool {
        &&& self.total_density == active_count(bits(self.bv))
        &&& bits(self.bv).len() <= usize::MAX
    }

    /// A tracker with no slot.
    pub fn new() -> (tracker: DensityTracker)
        ensures
            tracker.wf(),
            tracker@ == Seq::<bool>::empty(),
    {
        DensityTracker { bv: bits_new(), total_density: 0 }
    }

    /// Appends an inactive slot.
    pub fn add_element(&mut self)
        requires
            old(self).wf(),
            old(self)@.len() < usize::MAX,
        ensures
            final(self).wf(),
            final(self)@ == old(self)@.push(false),
    {
        proof {
            lemma_active_count_push(self@, false);
        }
        bits_push(&mut self.bv, false);
    }

    /// Marks slot `idx` active. The count of active slots goes up by one where the
    /// slot was inactive, and stays where the slot was active already.
    pub fn inc(&mut self, idx: usize)
        requires
            old(self).wf(),
            idx < old(self)@.len(),
        ensures
            final(self).wf(),
            final(self)@ == old(self)@.update(idx as int, true),
            old(self)@[idx as int] ==> final(self)@ == old(self)@,
    {
        proof {
            lemma_active_before_update(self@, idx as int, true, self@.len() as int);
            lemma_active_before_bounded(self@.update(idx as int, true), self@.len() as int);
        }
        if !bits_get(&self.bv, idx).unwrap() {
            bits_set(&mut self.bv, idx, true);
            self.total_density += 1;
        }
    }

    /// The number of active slots.
    pub fn get_total_density(&self) -> (count: usize)
        requires
            self.wf(),
        ensures
            count == active_count(self@),
    {
        self.total_density
    }
}

impl QueryDensity for DensityTracker {
    open spec fn size(&self) -> Option<nat> {
        Some(self@.len())
    }

    open spec fn active(&self, i: int) -> bool {
        self@[i]
    }

    fn get_query_size(&self) -> (r: Option<usize>) {
        Some(bits_len(&self.bv))
    }

    fn is_active(&self, idx: usize) -> (b: bool) {
        bits_get(&self.bv, idx).unwrap()
    }
}

} // verus!
