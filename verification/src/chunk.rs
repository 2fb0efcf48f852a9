//! One fixed-capacity block and its bump pointer.

use crate::align::{align_up, lemma_round_up, lemma_round_up_overflow, round_up};
use crate::error::ArenaError;
use crate::layout::{is_block, is_valid_layout, Block};
use vstd::arithmetic::power2::is_pow2;
use vstd::layout::valid_layout;
use vstd::prelude::*;

verus! {

/// What a chunk is to the contracts: where its block starts, how many bytes
/// the block has, and how many of them are spoken for.
pub struct ChunkModel {
    pub base: int,
    pub capacity: int,
    pub used: int,
}

impl ChunkModel {
    /// A chunk over the block at `base` with nothing handed out yet.
    pub open spec fn fresh(base: int, capacity: int) -> ChunkModel {
        ChunkModel { base, capacity, used: 0 }
    }

    /// The block is a real one: it does not start at the null address, it
    /// ends inside the address space, and no more of it is used than it has.
    pub open spec fn wf(self) -> bool {
        &&& 0 < self.base
        &&& 0 <= self.used <= self.capacity
        &&& self.base + self.capacity <= usize::MAX
    }

    /// The first address not yet handed out.
    pub open spec fn cursor(self) -> int {
        self.base + self.used
    }

    /// One past the last address of the block.
    pub open spec fn end(self) -> int {
        self.base + self.capacity
    }

    /// Where a request aligned to `align` would start.
    pub open spec fn start_for(self, align: usize) -> int {
        round_up(self.cursor(), align as int)
    }

    /// Whether a request of `size` bytes aligned to `align` still fits.
    pub open spec fn fits(self, size: usize, align: usize) -> bool {
        self.start_for(align) + size <= self.end()
    }

    /// The chunk after it has served such a request.
    pub open spec fn take(self, size: usize, align: usize) -> ChunkModel {
        ChunkModel { used: self.start_for(align) + size - self.base, ..self }
    }

    /// Whether `[addr, addr + size)` lies inside the block.
    pub open spec fn holds(self, addr: int, size: int) -> bool {
        self.base <= addr && addr + size <= self.end()
    }

    /// Whether `[addr, addr + size)` lies inside the part of the block that
    /// is handed out.
    pub open spec fn issued(self, addr: int, size: int) -> bool {
        self.base <= addr && addr + size <= self.cursor()
    }

    /// Whether the two blocks share no address.
    pub open spec fn apart(self, other: ChunkModel) -> bool {
        self.end() <= other.base || other.end() <= self.base
    }
}

/// The address range a request would occupy in a chunk.
#[derive(Debug, Clone, Copy, PartialEq, Eq, Structural)]
pub struct ArenaChunkRange {
    pub start: usize,
    pub end: usize,
}

/// A block of `CSIZE` bytes aligned to `CALIGN`, served from front to back.
pub struct ArenaChunk<const CSIZE: usize, const CALIGN: usize> {
    base: usize,
    capacity: usize,
    used: usize,
}

impl<const CSIZE: usize, const CALIGN: usize> View for ArenaChunk<CSIZE, CALIGN> {
    type V = ChunkModel;

    closed spec fn view(&self) -> ChunkModel {
        ChunkModel {
            base: self.base as int,
            capacity: self.capacity as int,
            used: self.used as int,
        }
    }
}

impl<const CSIZE: usize, const CALIGN: usize> ArenaChunk<CSIZE, CALIGN> {
    #[verifier::type_invariant]
    spec fn inv(self) -> bool {
        &&& self@.wf()
        &&& self.capacity == CSIZE
        &&& is_block(self.base, CSIZE, CALIGN)
        &&& valid_layout(CSIZE, CALIGN)
    }

    /// Makes a chunk of the block that the memory source answered a request
    /// for `CSIZE` bytes aligned to `CALIGN` with; `base` is the block's
    /// address, or 0 where the source refused.
    ///
    /// Fails with `InvalidLayout` where `CSIZE` and `CALIGN` form no layout,
    /// and with `OutOfMemory` where the source refused.
    pub fn new(base: usize) -> (made: Result<Self, ArenaError>)
        requires
            valid_layout(CSIZE, CALIGN) && base != 0 ==> is_block(base, CSIZE, CALIGN),
        ensures
            !valid_layout(CSIZE, CALIGN) ==> made is Err && made->Err_0
                == ArenaError::InvalidLayout,
            valid_layout(CSIZE, CALIGN) && base == 0 ==> made is Err && made->Err_0
                == ArenaError::OutOfMemory,
            valid_layout(CSIZE, CALIGN) && base != 0 ==> made is Ok && made->Ok_0@
                == ChunkModel::fresh(base as int, CSIZE as int),
    {
        if !is_valid_layout(CSIZE, CALIGN) {
            return Err(ArenaError::InvalidLayout);
        }
        if base == 0 {
            return Err(ArenaError::OutOfMemory);
        }
        let chunk = Self { base, capacity: CSIZE, used: 0 };

        Ok(chunk)
    }

    /// The address of the block.
    pub fn base(&self) -> (base: usize)
        ensures
            base == self@.base,
            self@.wf(),
            self@.capacity == CSIZE,
            is_block(base, CSIZE, CALIGN),
    {
        proof {
            use_type_invariant(self);
        }
        self.base
    }

    /// The first address not yet handed out.
    pub fn get_current_addr(&self) -> (addr: usize)
        ensures
            addr == self@.cursor(),
    {
        proof {
            use_type_invariant(self);
        }
        self.base + self.used
    }

    /// Where `size` bytes aligned to `align` would lie if served next, or
    /// `None` where that range would leave the address space.
    pub fn get_aligned(&self, size: usize, align: usize) -> (range: Option<ArenaChunkRange>)
        requires
            is_pow2(align as int),
        ensures
            self@.start_for(align) + size <= usize::MAX ==> range == Some(
                ArenaChunkRange {
                    start: self@.start_for(align) as usize,
                    end: (self@.start_for(align) + size) as usize,
                },
            ),
            self@.start_for(align) + size > usize::MAX ==> range.is_none(),
    {
        proof {
            reveal(is_pow2);
            lemma_round_up(self@.cursor(), align as int);
        }
        let curr: usize = self.get_current_addr();
        if align - 1 > usize::MAX - curr {
            proof {
                lemma_round_up_overflow(curr, align);
            }
            return None;
        }
        let aligned: usize = align_up(curr, align);
        if size > usize::MAX - aligned {
            return None;
        }
        let end: usize = aligned + size;

        Some(ArenaChunkRange { start: aligned, end })
    }

    /// Serves `size` bytes aligned to `align` from the front of what is
    /// left: returns the address of the first and counts everything up to
    /// the last as used. Where they do not fit, returns `None` and changes
    /// nothing.
    pub fn allocate(&mut self, size: usize, align: usize) -> (issued: Option<usize>)
        requires
            0 < size <= old(self)@.capacity,
            is_pow2(align as int),
        ensures
            old(self)@.fits(size, align) ==> issued == Some(old(self)@.start_for(align) as usize)
                && final(self)@ == old(self)@.take(size, align),
            !old(self)@.fits(size, align) ==> issued.is_none() && final(self)@ == old(self)@,
            final(self)@.base == old(self)@.base,
            final(self)@.capacity == old(self)@.capacity,
            final(self)@.used >= old(self)@.used,
            old(self)@.wf(),
            final(self)@.wf(),
            issued matches Some(addr) ==> {
                &&& addr as int % align as int == 0
                &&& old(self)@.cursor() <= addr
                &&& addr + size == final(self)@.cursor()
            },
    {
        proof {
            use_type_invariant(&*self);
            reveal(is_pow2);
            lemma_round_up(self@.cursor(), align as int);
        }
        let aligned = match self.get_aligned(size, align) {
            Some(range) => range,
            None => {
                return None;
            },
        };
        let new_used: usize = aligned.end - self.base;
        if new_used > self.capacity {
            return None;
        }
        self.used = new_used;
        Some(aligned.start)
    }

    /// The chunk's whole block with the layout it was asked for with, as it
    /// must go back to the memory source when the chunk is given up.
    pub fn block(&self) -> (block: Block)
        ensures
            block == (Block { base: self@.base as usize, size: CSIZE, align: CALIGN }),
    {
        proof {
            use_type_invariant(self);
        }
        Block { base: self.base, size: self.capacity, align: CALIGN }
    }
}

} // verus!
