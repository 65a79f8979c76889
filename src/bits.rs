//! Cell buffers: `fixedbitset::FixedBitSet`, with its contents modelled as a
//! sequence of booleans (`true` for a live cell).
use fixedbitset::FixedBitSet;
use vstd::prelude::*;

verus! {

#[verifier::external_type_specification]
#[verifier::external_body]
pub struct ExFixedBitSet(FixedBitSet);

/// The bits that a `FixedBitSet` holds, bit `i` at position `i`.
pub uninterp spec fn bits_of(b: FixedBitSet) -> Seq<bool>;

/// Relies on `FixedBitSet::with_capacity`: `len` bits, all of them cleared.
#[verifier::external_body]
pub(crate) fn new_bits(len: usize) -> (r: FixedBitSet)
    ensures
        bits_of(r) == Seq::new(len as nat, |i: int| false),
{
    FixedBitSet::with_capacity(len)
}

/// Relies on `FixedBitSet::contains`: whether bit `i` is set, for `i` below the length.
#[verifier::external_body]
pub(crate) fn get_bit(b: &FixedBitSet, i: usize) -> (r: bool)
    requires
        i < bits_of(*b).len(),
    ensures
        r == bits_of(*b)[i as int],
{
    b.contains(i)
}

/// Relies on `FixedBitSet::set`: bit `i` becomes `enabled`, the others and the
/// length stay; it panics when `i` is not below the length.
#[verifier::external_body]
pub(crate) fn set_bit(b: &mut FixedBitSet, i: usize, enabled: bool)
    requires
        i < bits_of(*old(b)).len(),
    ensures
        bits_of(*final(b)) == bits_of(*old(b)).update(i as int, enabled),
{
    b.set(i, enabled)
}

/// Relies on `FixedBitSet::as_slice`: the storage as 32-bit blocks, bit `i`
/// being bit `i % 32` (least significant first) of block `i / 32`.
#[verifier::external_body]
pub(crate) fn bit_blocks(b: &FixedBitSet) -> (r: &[u32])
    ensures
        r@.len() == (bits_of(*b).len() + 31) / 32,
        forall|i: int|
            0 <= i < bits_of(*b).len() ==> (#[trigger] bits_of(*b)[i] == ((r@[i / 32] >> ((i % 32) as u32)) & 1u32 == 1u32)),
{
    b.as_slice()
}

} // verus!
