//! Which (size, alignment) pairs the platform accepts, and which addresses
//! a memory source may answer with.

use crate::align::{is_power_of_two, lemma_isize_max_remainder};
use vstd::arithmetic::power2::is_pow2;
use vstd::layout::valid_layout;
use vstd::prelude::*;

verus! {

/// A block as it goes back to the memory source: the address it was handed
/// out at and the layout it was asked for with.
#[derive(Debug, Clone, Copy, PartialEq, Eq, Structural)]
pub struct Block {
    pub base: usize,
    pub size: usize,
    pub align: usize,
}

/// Whether `base` can be the answer of a memory source to a request for
/// `size` bytes aligned to `align`: not null, on the boundary, and with the
/// whole block inside the address space.
pub open spec fn spec_is_block(base: usize, size: usize, align: usize) -> bool {
    &&& align > 0
    &&& base != 0
    &&& base as int % align as int == 0
    &&& base + size <= usize::MAX
}

/// Whether `base` can be the answer of a memory source to a request for
/// `size` bytes aligned to `align`.
#[verifier::when_used_as_spec(spec_is_block)]
pub fn is_block(base: usize, size: usize, align: usize) -> (ok: bool)
    ensures
        ok == spec_is_block(base, size, align),
{
    align != 0 && base != 0 && base % align == 0 && size <= usize::MAX - base
}

/// Whether `size` bytes aligned to `align` form a layout: `align` is a power
/// of two, and `size` rounded up to it does not exceed `isize::MAX`.
pub fn is_valid_layout(size: usize, align: usize) -> (valid: bool)
    ensures
        valid == valid_layout(size, align),
{
    if !is_power_of_two(align) {
        return false;
    }
    proof {
        reveal(is_pow2);
        lemma_isize_max_remainder(align);
        vstd::arithmetic::div_mod::lemma_mod_decreases(isize::MAX as nat, align as nat);
    }
    size <= isize::MAX as usize - (align - 1)
}

} // verus!
