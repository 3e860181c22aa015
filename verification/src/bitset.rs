//! What this library relies on of `fixedbitset::FixedBitSet`.
//!
//! Nothing in this file is proved. A bit set is a vector of 32-bit blocks and
//! a length in bits; the two names below stand for them, and each contract
//! says what the method does to them.

use fixedbitset::FixedBitSet;
use vstd::prelude::*;
use crate::packing::{block_count, word_bit, word_flip_bit, word_with_bit};

verus! {

#[verifier::external_type_specification]
#[verifier::external_body]
pub struct ExFixedBitSet(FixedBitSet);

/// The blocks of a bit set, in the order in which it stores them.
pub uninterp spec fn blocks(s: FixedBitSet) -> Seq<u32>;

/// The length of a bit set in bits: the number it was made for.
pub uninterp spec fn bit_len(s: FixedBitSet) -> nat;

/// `FixedBitSet::with_capacity` makes a set of `bits` bits: just enough
/// blocks to hold them, every block zero.
pub assume_specification[ FixedBitSet::with_capacity ](bits: usize) -> (s: FixedBitSet)
    ensures
        bit_len(s) == bits,
        blocks(s) == Seq::new(block_count(bits as nat), |i: int| 0u32),
;

/// `FixedBitSet::set` panics on a bit at or past the length. Otherwise it
/// switches bit `bit % 32` of block `bit / 32` on or off and changes nothing
/// else.
pub assume_specification[ FixedBitSet::set ](s: &mut FixedBitSet, bit: usize, enabled: bool)
    requires
        bit < bit_len(*old(s)),
        bit / 32 < blocks(*old(s)).len(),
    ensures
        bit_len(*final(s)) == bit_len(*old(s)),
        blocks(*final(s)) == blocks(*old(s)).update(
            bit as int / 32,
            word_with_bit(blocks(*old(s))[bit as int / 32], (bit % 32) as u32, enabled),
        ),
;

/// `FixedBitSet::toggle` panics on a bit at or past the length. Otherwise it
/// inverts bit `bit % 32` of block `bit / 32` and changes nothing else.
pub assume_specification[ FixedBitSet::toggle ](s: &mut FixedBitSet, bit: usize)
    requires
        bit < bit_len(*old(s)),
        bit / 32 < blocks(*old(s)).len(),
    ensures
        bit_len(*final(s)) == bit_len(*old(s)),
        blocks(*final(s)) == blocks(*old(s)).update(
            bit as int / 32,
            word_flip_bit(blocks(*old(s))[bit as int / 32], (bit % 32) as u32),
        ),
;

/// `FixedBitSet::as_slice` hands out the blocks as they are stored.
pub assume_specification[ FixedBitSet::as_slice ](s: &FixedBitSet) -> (words: &[u32])
    ensures
        words@ == blocks(*s),
;

/// `FixedBitSet::clone` copies the blocks and the length.
pub assume_specification[ <FixedBitSet as Clone>::clone ](s: &FixedBitSet) -> (copy: FixedBitSet)
    ensures
        blocks(copy) == blocks(*s),
        bit_len(copy) == bit_len(*s),
;

/// `FixedBitSet`'s `Index::index`, which is `FixedBitSet::contains`, never
/// panics: it reads bit `bit % 32` of block `bit / 32`, and gives `false`
/// where the set has no such block.
#[verifier::external_body]
pub(crate) fn bit_at(s: &FixedBitSet, bit: usize) -> (on: bool)
    ensures
        on == (bit / 32 < blocks(*s).len() && word_bit(
            blocks(*s)[bit as int / 32],
            (bit % 32) as u32,
        )),
{
    s[bit]
}

} // verus!
