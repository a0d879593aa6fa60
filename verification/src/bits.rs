//! Trusted boundary to the `fixedbitset` crate, which stores the grid's
//! cells as a packed bit sequence.
//!
//! Everything the engine knows of a `FixedBitSet` is said here, over the
//! uninterpreted contents function `fb_bits`.

use vstd::prelude::*;
use fixedbitset::FixedBitSet;

verus! {

#[verifier::external_type_specification]
#[verifier::external_body]
pub struct ExFixedBitSet(FixedBitSet);

/// The boolean contents of a `FixedBitSet`, bit by bit, in index order.
pub uninterp spec fn fb_bits(fb: FixedBitSet) -> Seq<bool>;

/// Relies on `FixedBitSet::with_capacity`: a set of `bits` bits, all
/// initially clear.
#[verifier::external_body]
pub(crate) fn fb_with_capacity(bits: usize) -> (r: FixedBitSet)
    ensures
        fb_bits(r).len() == bits,
        forall|i: int| 0 <= i < bits ==> !fb_bits(r)[i],
{
    FixedBitSet::with_capacity(bits)
}

/// Relies on `FixedBitSet::set`: writes the one addressed bit and no other;
/// it panics only on an out-of-range index, which the precondition excludes.
#[verifier::external_body]
pub(crate) fn fb_set(fb: &mut FixedBitSet, bit: usize, enabled: bool)
    requires
        bit < fb_bits(*old(fb)).len(),
    ensures
        fb_bits(*final(fb)) == fb_bits(*old(fb)).update(bit as int, enabled),
{
    fb.set(bit, enabled);
}

/// Relies on `FixedBitSet::contains`: reads the one addressed bit (always
/// in range here, where `contains` reports the stored value).
#[verifier::external_body]
pub(crate) fn fb_get(fb: &FixedBitSet, bit: usize) -> (r: bool)
    requires
        bit < fb_bits(*fb).len(),
    ensures
        r == fb_bits(*fb)[bit as int],
{
    fb.contains(bit)
}

/// Relies on `FixedBitSet::clone`: the copy holds the same bits.
#[verifier::external_body]
pub(crate) fn fb_clone(fb: &FixedBitSet) -> (r: FixedBitSet)
    ensures
        fb_bits(r) == fb_bits(*fb),
{
    fb.clone()
}

} // verus!
