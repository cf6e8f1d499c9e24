//! Trusted boundary around the `fixedbitset` crate.
//!
//! A `fixedbitset::FixedBitSet` holds one bit per grid cell. Verus treats
//! the type as opaque, so `bit_view` names the sequence of bits a set
//! holds, and each wrapper below states what one `fixedbitset` method
//! does to that view, as the crate's source shows.

use vstd::prelude::*;

verus! {

#[verifier::external_type_specification]
#[verifier::external_body]
pub struct ExFixedBitSet(fixedbitset::FixedBitSet);

/// The bits held by a `fixedbitset::FixedBitSet`, in index order:
/// `bit_view(s)[i]` is `true` exactly when bit `i` is enabled.
pub uninterp spec fn bit_view(s: fixedbitset::FixedBitSet) -> Seq<bool>;

/// Relies on `FixedBitSet::with_capacity`: a set with `bits` bits, all
/// initially clear.
#[verifier::external_body]
pub(crate) fn bits_new(bits: usize) -> (r: fixedbitset::FixedBitSet)
    ensures
        bit_view(r).len() == bits,
        forall|i: int| 0 <= i < bits ==> !bit_view(r)[i],
{
    fixedbitset::FixedBitSet::with_capacity(bits)
}

/// Relies on `FixedBitSet::len`: the number of bits the set holds.
#[verifier::external_body]
pub(crate) fn bits_len(s: &fixedbitset::FixedBitSet) -> (r: usize)
    ensures
        r == bit_view(*s).len(),
{
    s.len()
}

/// Relies on `FixedBitSet::contains`: `true` exactly when `bit` is in
/// bounds and enabled; bits outside the bounds read as disabled.
#[verifier::external_body]
pub(crate) fn bits_get(s: &fixedbitset::FixedBitSet, bit: usize) -> (r: bool)
    ensures
        r == (bit < bit_view(*s).len() && bit_view(*s)[bit as int]),
{
    s.contains(bit)
}

/// Relies on `FixedBitSet::set`: writes `enabled` into bit `bit` and
/// leaves every other bit as it was. The method panics out of bounds,
/// so the bound is required here.
#[verifier::external_body]
pub(crate) fn bits_put(s: &mut fixedbitset::FixedBitSet, bit: usize, enabled: bool)
    requires
        bit < bit_view(*old(s)).len(),
    ensures
        bit_view(*final(s)) == bit_view(*old(s)).update(bit as int, enabled),
{
    s.set(bit, enabled)
}

/// Relies on `FixedBitSet::toggle`: inverts bit `bit` and leaves every
/// other bit as it was. The method panics out of bounds, so the bound
/// is required here.
#[verifier::external_body]
pub(crate) fn bits_flip(s: &mut fixedbitset::FixedBitSet, bit: usize)
    requires
        bit < bit_view(*old(s)).len(),
    ensures
        bit_view(*final(s)) == bit_view(*old(s)).update(
            bit as int,
            !bit_view(*old(s))[bit as int],
        ),
{
    s.toggle(bit)
}

/// Relies on `<FixedBitSet as Clone>::clone_from`: with equal bit
/// counts it copies every block of `src` over `dst`, so `dst` ends
/// holding exactly the bits of `src`.
#[verifier::external_body]
pub(crate) fn bits_copy_from(dst: &mut fixedbitset::FixedBitSet, src: &fixedbitset::FixedBitSet)
    requires
        bit_view(*old(dst)).len() == bit_view(*src).len(),
    ensures
        bit_view(*final(dst)) == bit_view(*src),
{
    dst.clone_from(src)
}

} // verus!
