//! The bit sets of the `fixedbitset` crate.
//!
//! A set is described by two names: `ones`, the bits for which `contains` answers `true`, and
//! `bit_len`, the number of bits that may be set.
use vstd::prelude::*;
use fixedbitset::FixedBitSet;

verus! {

/// `fixedbitset::FixedBitSet`.
#[verifier::external_type_specification]
#[verifier::external_body]
pub struct ExFixedBitSet(fixedbitset::FixedBitSet);

/// The bits of a set that are enabled.
pub uninterp spec fn ones(set: FixedBitSet) -> Set<usize>;

/// The length of a set in bits, which bounds the bits that can be enabled.
pub uninterp spec fn bit_len(set: FixedBitSet) -> nat;

/// `FixedBitSet::default` gives a set of no bits: nothing is enabled and the length is zero.
#[verifier::external_body]
pub(crate) fn empty_bits() -> (set: FixedBitSet)
    ensures
        ones(set) == Set::<usize>::empty(),
        bit_len(set) == 0,
{
    FixedBitSet::default()
}

/// `FixedBitSet::contains` tells whether a bit is enabled. It may be asked about any bit.
pub assume_specification[ FixedBitSet::contains ](set: &FixedBitSet, bit: usize) -> (enabled: bool)
    ensures
        enabled == ones(*set).contains(bit),
;

/// `FixedBitSet::grow` makes a set at least so many bits long and enables none.
pub assume_specification[ FixedBitSet::grow ](set: &mut FixedBitSet, bits: usize)
    ensures
        ones(*final(set)) == ones(*old(set)),
        bit_len(*final(set)) == if bits > bit_len(*old(set)) {
            bits as nat
        } else {
            bit_len(*old(set))
        },
;

/// `FixedBitSet::set` enables or disables one bit, and panics beyond the length.
pub assume_specification[ FixedBitSet::set ](set: &mut FixedBitSet, bit: usize, enabled: bool)
    requires
        bit < bit_len(*old(set)),
    ensures
        ones(*final(set)) == if enabled {
            ones(*old(set)).insert(bit)
        } else {
            ones(*old(set)).remove(bit)
        },
        bit_len(*final(set)) == bit_len(*old(set)),
;

/// `FixedBitSet::union_with` enables the bits of another set too, and grows to its length where
/// that is the greater one.
pub assume_specification[ FixedBitSet::union_with ](set: &mut FixedBitSet, other: &FixedBitSet)
    ensures
        ones(*final(set)) == ones(*old(set)).union(ones(*other)),
        bit_len(*final(set)) == if bit_len(*other) > bit_len(*old(set)) {
            bit_len(*other)
        } else {
            bit_len(*old(set))
        },
;

/// No bit beyond the length is enabled, and the length is no greater than the enabled bits need.
pub open spec fn tight(set: FixedBitSet) -> bool {
    &&& bit_len(set) <= usize::MAX
    &&& forall|bit: usize| #[trigger] ones(set).contains(bit) ==> bit < bit_len(set)
    &&& bit_len(set) > 0 ==> ones(set).contains((bit_len(set) - 1) as usize)
}

/// The bits that are enabled decide the length of such a set.
pub proof fn tight_alike(a: FixedBitSet, b: FixedBitSet)
    requires
        tight(a),
        tight(b),
        ones(a) == ones(b),
    ensures
        bit_len(a) == bit_len(b),
{
    if bit_len(a) < bit_len(b) {
        assert(ones(a).contains((bit_len(b) - 1) as usize));
    }
    if bit_len(b) < bit_len(a) {
        assert(ones(b).contains((bit_len(a) - 1) as usize));
    }
}

/// Enables a bit, after growing the set so far as the bit needs it.
pub fn insert_grown(set: &mut FixedBitSet, bit: usize)
    requires
        bit < usize::MAX,
    ensures
        ones(*final(set)) == ones(*old(set)).insert(bit),
{
    set.grow(bit + 1);
    set.set(bit, true);
}

} // verus!
