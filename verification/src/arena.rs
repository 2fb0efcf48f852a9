//! A growing sequence of chunks, the last of which serves requests.
//!
//! The arena never touches memory. It decides where a request lies, and it
//! says when a new block is wanted; whoever drives it asks the memory source
//! for that block and hands the answer to [`Arena::grow`]. Every operation
//! that changes the arena takes `&mut self`: a caller that shares one arena
//! among threads reaches it through its lock, and so one whole operation
//! ends before the next begins.

use crate::chunk::{ArenaChunk, ChunkModel};
use crate::error::ArenaError;
use crate::layout::{is_block, is_valid_layout, Block};
use vstd::arithmetic::power2::is_pow2;
use vstd::layout::valid_layout;
use vstd::prelude::*;

verus! {

/// The chunk capacity of the default arena, in bytes.
pub const CHUNK_SIZE: usize = 1024 * 1024;

/// The chunk alignment of the default arena.
pub const CHUNK_ALIGN: usize = 16;

/// How far a request came without a new block.
#[derive(Debug, Clone, Copy, PartialEq, Eq, Structural)]
pub enum Attempt {
    /// The current chunk served it, at this address.
    Placed(usize),
    /// There is no chunk yet, or the current one is full: a new block is
    /// wanted.
    NeedsChunk,
}

/// What an arena is to the contracts: its fixed chunk capacity and chunk
/// alignment, and its chunks in the order they were added.
pub struct ArenaModel {
    pub capacity: usize,
    pub align: usize,
    pub chunks: Seq<ChunkModel>,
}

impl ArenaModel {
    /// The arena with no chunk.
    pub open spec fn empty(capacity: usize, align: usize) -> ArenaModel {
        ArenaModel { capacity, align, chunks: Seq::empty() }
    }

    /// Every chunk is a block of this arena's layout, and no two chunks
    /// share an address.
    pub open spec fn wf(self) -> bool {
        &&& self.chunks.len() > 0 ==> self.capacity > 0 && valid_layout(self.capacity, self.align)
        &&& forall|i: int|
            0 <= i < self.chunks.len() ==> {
                &&& (#[trigger] self.chunks[i]).wf()
                &&& self.chunks[i].capacity == self.capacity
                &&& self.chunks[i].base % self.align as int == 0
            }
        &&& forall|i: int, j: int|
            0 <= i < j < self.chunks.len() ==> (#[trigger] self.chunks[i]).apart(
                #[trigger] self.chunks[j],
            )
    }

    /// The blocks of the chunks, in the order the chunks were added, each
    /// with the layout it was asked for with.
    pub open spec fn blocks(self) -> Seq<Block> {
        Seq::new(
            self.chunks.len(),
            |i: int|
                Block { base: self.chunks[i].base as usize, size: self.capacity, align: self.align },
        )
    }

    /// Whether the block at `base` can become the next chunk: it is a block
    /// of this arena's layout, and it shares no address with a chunk.
    pub open spec fn admits(self, base: usize) -> bool {
        &&& is_block(base, self.capacity, self.align)
        &&& forall|i: int|
            0 <= i < self.chunks.len() ==> (#[trigger] self.chunks[i]).apart(
                ChunkModel::fresh(base as int, self.capacity as int),
            )
    }

    /// Whether the current chunk has room for the request.
    pub open spec fn current_fits(self, size: usize, align: usize) -> bool {
        self.chunks.len() > 0 && self.chunks.last().fits(size, align)
    }

    /// The arena after its current chunk has served the request.
    pub open spec fn place(self, size: usize, align: usize) -> ArenaModel {
        ArenaModel {
            chunks: self.chunks.update(
                self.chunks.len() - 1,
                self.chunks.last().take(size, align),
            ),
            ..self
        }
    }

    /// The arena after the block at `base` has become its current chunk and
    /// has served the request.
    pub open spec fn extend(self, size: usize, align: usize, base: usize) -> ArenaModel {
        ArenaModel {
            chunks: self.chunks.push(
                ChunkModel::fresh(base as int, self.capacity as int).take(size, align),
            ),
            ..self
        }
    }

    /// What `try_allocate` does: the arena afterwards, and what is returned.
    pub open spec fn try_allocate(self, size: usize, align: usize) -> (
        ArenaModel,
        Result<Attempt, ArenaError>,
    ) {
        if size == 0 {
            (self, Err(ArenaError::ZeroSized))
        } else if size > self.capacity {
            (self, Err(ArenaError::TooLarge))
        } else if !valid_layout(size, align) {
            (self, Err(ArenaError::InvalidLayout))
        } else if self.current_fits(size, align) {
            (
                self.place(size, align),
                Ok(Attempt::Placed(self.chunks.last().start_for(align) as usize)),
            )
        } else if !valid_layout(self.capacity, self.align) {
            (self, Err(ArenaError::InvalidLayout))
        } else {
            (self, Ok(Attempt::NeedsChunk))
        }
    }

    /// Whether `try_allocate` answers the request with `NeedsChunk`.
    pub open spec fn wants_chunk(self, size: usize, align: usize) -> bool {
        self.try_allocate(size, align).1 == Ok::<Attempt, ArenaError>(Attempt::NeedsChunk)
    }

    /// Whether the block at `base` can become the next chunk and, empty,
    /// has room for the request.
    pub open spec fn accepts(self, size: usize, align: usize, base: usize) -> bool {
        &&& valid_layout(self.capacity, self.align)
        &&& is_pow2(align as int)
        &&& self.admits(base)
        &&& ChunkModel::fresh(base as int, self.capacity as int).fits(size, align)
    }

    /// What `grow` does: the arena afterwards, and what is returned.
    pub open spec fn grow(self, size: usize, align: usize, base: usize) -> (
        ArenaModel,
        Result<usize, ArenaError>,
    ) {
        if base == 0 {
            (self, Err(ArenaError::OutOfMemory))
        } else {
            (
                self.extend(size, align, base),
                Ok(ChunkModel::fresh(base as int, self.capacity as int).start_for(align) as usize),
            )
        }
    }
}

impl ArenaModel {
    /// Serving a request from the current chunk keeps the arena well formed.
    pub proof fn lemma_place_wf(self, size: usize, align: usize)
        requires
            self.wf(),
            size > 0,
            is_pow2(align as int),
            self.current_fits(size, align),
        ensures
            self.place(size, align).wf(),
    {
        let last = self.chunks.len() - 1;
        let after = self.place(size, align);
        reveal(is_pow2);
        crate::align::lemma_round_up(self.chunks[last].cursor(), align as int);
        assert forall|i: int| 0 <= i < after.chunks.len() implies {
            &&& (#[trigger] after.chunks[i]).wf()
            &&& after.chunks[i].capacity == after.capacity
            &&& after.chunks[i].base % after.align as int == 0
        } by {
            assert(self.chunks[i].wf());
        }
        assert forall|i: int, j: int| 0 <= i < j < after.chunks.len() implies (
        #[trigger] after.chunks[i]).apart(#[trigger] after.chunks[j]) by {
            assert(self.chunks[i].apart(self.chunks[j]));
        }
    }

    /// Serving a request from a block that the arena accepts keeps the
    /// arena well formed.
    pub proof fn lemma_extend_wf(self, size: usize, align: usize, base: usize)
        requires
            self.wf(),
            0 < size <= self.capacity,
            self.accepts(size, align, base),
        ensures
            self.extend(size, align, base).wf(),
    {
        let after = self.extend(size, align, base);
        let fresh = ChunkModel::fresh(base as int, self.capacity as int);
        reveal(is_pow2);
        crate::align::lemma_round_up(fresh.cursor(), align as int);
        assert forall|i: int| 0 <= i < after.chunks.len() implies {
            &&& (#[trigger] after.chunks[i]).wf()
            &&& after.chunks[i].capacity == after.capacity
            &&& after.chunks[i].base % after.align as int == 0
        } by {
            if i < self.chunks.len() {
                assert(self.chunks[i].wf());
            }
        }
        assert forall|i: int, j: int| 0 <= i < j < after.chunks.len() implies (
        #[trigger] after.chunks[i]).apart(#[trigger] after.chunks[j]) by {
            if j < self.chunks.len() {
                assert(self.chunks[i].apart(self.chunks[j]));
            } else {
                assert(self.chunks[i].apart(fresh));
            }
        }
    }

    /// Where `try_allocate` asks for a chunk, every block of the arena's
    /// layout that shares no address with a chunk has room for the request,
    /// at its very start, if the request is aligned no further than the
    /// chunks are.
    pub proof fn lemma_admitted_block_fits(self, size: usize, align: usize, base: usize)
        requires
            self.wants_chunk(size, align),
            self.admits(base),
            align <= self.align,
        ensures
            self.accepts(size, align, base),
            ChunkModel::fresh(base as int, self.capacity as int).start_for(align) == base,
    {
        crate::align::lemma_pow2_aligned_to_smaller(base as int, align as int, self.align as int);
    }

    /// No block occurs twice among the chunks.
    pub proof fn lemma_blocks_distinct(self, i: int, j: int)
        requires
            self.wf(),
            0 <= i < j < self.chunks.len(),
        ensures
            self.blocks()[i].base != self.blocks()[j].base,
    {
        assert(self.chunks[i].apart(self.chunks[j]));
        assert(self.chunks[i].wf() && self.chunks[j].wf());
    }
}

/// An arena whose chunks are blocks of `CSIZE` bytes aligned to `CALIGN`.
pub struct Arena<const CSIZE: usize, const CALIGN: usize> {
    chunks: Vec<ArenaChunk<CSIZE, CALIGN>>,
}

impl<const CSIZE: usize, const CALIGN: usize> View for Arena<CSIZE, CALIGN> {
    type V = ArenaModel;

    closed spec fn view(&self) -> ArenaModel {
        ArenaModel {
            capacity: CSIZE,
            align: CALIGN,
            chunks: Seq::new(self.chunks@.len(), |i: int| self.chunks@[i]@),
        }
    }
}

impl<const CSIZE: usize, const CALIGN: usize> Arena<CSIZE, CALIGN> {
    #[verifier::type_invariant]
    spec fn inv(self) -> bool {
        self@.wf()
    }

    /// An arena with no chunk. The first chunk comes with the first request.
    pub fn new() -> (made: Result<Self, ArenaError>)
        ensures
            made is Ok,
            made->Ok_0@ == ArenaModel::empty(CSIZE, CALIGN),
    {
        let chunks = Vec::new();
        let arena = Self { chunks };
        assert(arena@.chunks =~= Seq::empty());

        Ok(arena)
    }

    /// Takes a request as far as it goes without a new block.
    ///
    /// A request for no bytes fails with `ZeroSized`, one for more than
    /// `CSIZE` bytes with `TooLarge`, one whose size and alignment form no
    /// layout with `InvalidLayout`. Otherwise the current chunk serves it
    /// where it has room. Where it has none, or there is no chunk, the
    /// answer is `NeedsChunk`, or `InvalidLayout` where `CSIZE` and `CALIGN`
    /// form no layout. Only a served request changes the arena.
    pub fn try_allocate(&mut self, size: usize, align: usize) -> (outcome: Result<
        Attempt,
        ArenaError,
    >)
        ensures
            outcome == old(self)@.try_allocate(size, align).1,
            final(self)@ == old(self)@.try_allocate(size, align).0,
            old(self)@.wf(),
            final(self)@.wf(),
            size == 0 ==> outcome == Err::<Attempt, ArenaError>(ArenaError::ZeroSized),
            size > CSIZE ==> outcome == Err::<Attempt, ArenaError>(ArenaError::TooLarge),
            outcome is Err || outcome == Ok::<Attempt, ArenaError>(Attempt::NeedsChunk)
                ==> final(self)@ == old(self)@,
            outcome matches Ok(Attempt::Placed(addr)) ==> {
                &&& addr as int % align as int == 0
                &&& old(self)@.chunks.last().cursor() <= addr
                &&& addr + size == final(self)@.chunks.last().cursor()
                &&& final(self)@.chunks.last().holds(addr as int, size as int)
            },
    {
        proof {
            use_type_invariant(&*self);
        }
        if size == 0 {
            return Err(ArenaError::ZeroSized);
        }
        if size > CSIZE {
            return Err(ArenaError::TooLarge);
        }
        if !is_valid_layout(size, align) {
            return Err(ArenaError::InvalidLayout);
        }
        let count: usize = self.chunks.len();
        if count > 0 {
            let ghost before = self@;
            // the chunks leave the arena while one of them changes, so that
            // the arena is whole at every point
            let mut chunks = Vec::new();
            std::mem::swap(&mut chunks, &mut self.chunks);
            let issued = chunks[count - 1].allocate(size, align);
            proof {
                let after = ArenaModel {
                    capacity: CSIZE,
                    align: CALIGN,
                    chunks: Seq::new(chunks@.len(), |i: int| chunks@[i]@),
                };
                if before.current_fits(size, align) {
                    assert(after.chunks =~= before.place(size, align).chunks);
                    before.lemma_place_wf(size, align);
                    reveal(is_pow2);
                    crate::align::lemma_round_up(before.chunks.last().cursor(), align as int);
                } else {
                    assert(after.chunks =~= before.chunks);
                }
            }
            self.chunks = chunks;
            if let Some(addr) = issued {
                return Ok(Attempt::Placed(addr));
            }
        }
        if !is_valid_layout(CSIZE, CALIGN) {
            return Err(ArenaError::InvalidLayout);
        }
        Ok(Attempt::NeedsChunk)
    }

    /// `try_allocate` for a caller that has made sure the request cannot
    /// fail: it asks for at least one byte and for no more than `CSIZE`, its
    /// size and alignment form a layout, and so do `CSIZE` and `CALIGN`.
    pub fn allocate(&mut self, size: usize, align: usize) -> (attempt: Attempt)
        requires
            0 < size <= CSIZE,
            valid_layout(size, align),
            valid_layout(CSIZE, CALIGN),
        ensures
            Ok::<Attempt, ArenaError>(attempt) == old(self)@.try_allocate(size, align).1,
            final(self)@ == old(self)@.try_allocate(size, align).0,
            final(self)@.wf(),
    {
        self.try_allocate(size, align).unwrap()
    }

    /// Whether the block at `base` may be handed to `grow` for the request:
    /// `CSIZE` and `CALIGN` form a layout, `align` is a power of two, the
    /// block is one of that layout, it shares no address with a chunk, and,
    /// empty, it has room for `size` bytes aligned to `align`.
    pub fn accepts(&self, size: usize, align: usize, base: usize) -> (ok: bool)
        ensures
            ok == self@.accepts(size, align, base),
    {
        proof {
            use_type_invariant(self);
        }
        if !is_valid_layout(CSIZE, CALIGN) || !crate::align::is_power_of_two(align) {
            return false;
        }
        proof {
            reveal(is_pow2);
        }
        if !is_block(base, CSIZE, CALIGN) {
            return false;
        }
        let ghost fresh = ChunkModel::fresh(base as int, CSIZE as int);
        proof {
            crate::align::lemma_round_up(base as int, align as int);
        }
        if align - 1 > usize::MAX - base {
            proof {
                crate::align::lemma_round_up_overflow(base, align);
            }
            return false;
        }
        let padding: usize = crate::align::align_up(base, align) - base;
        if padding > CSIZE || size > CSIZE - padding {
            return false;
        }
        let mut i: usize = 0;
        while i < self.chunks.len()
            invariant
                i <= self.chunks.len(),
                self@.wf(),
                base + CSIZE <= usize::MAX,
                fresh == ChunkModel::fresh(base as int, CSIZE as int),
                forall|k: int| 0 <= k < i ==> (#[trigger] self@.chunks[k]).apart(fresh),
            decreases self.chunks.len() - i,
        {
            let other: usize = self.chunks[i].base();
            assert(self@.chunks[i as int] == self.chunks@[i as int]@);
            if !(other + CSIZE <= base || base + CSIZE <= other) {
                assert(!self@.chunks[i as int].apart(fresh));
                return false;
            }
            i += 1;
        }
        true
    }

    /// Makes the block that the memory source answered with the current
    /// chunk and serves the request from it; `base` is the block's address,
    /// or 0 where the source refused.
    ///
    /// This is for the request that `try_allocate` has answered with
    /// `NeedsChunk`, and for a block that `accepts` admits. Where the source
    /// refused, fails with `OutOfMemory` and changes nothing. Otherwise the
    /// request is served from the start of the block, rounded up to `align`.
    pub fn grow(&mut self, size: usize, align: usize, base: usize) -> (outcome: Result<
        usize,
        ArenaError,
    >)
        requires
            old(self)@.wants_chunk(size, align),
            base != 0 ==> old(self)@.accepts(size, align, base),
        ensures
            outcome == old(self)@.grow(size, align, base).1,
            final(self)@ == old(self)@.grow(size, align, base).0,
            final(self)@.wf(),
            base == 0 ==> outcome == Err::<usize, ArenaError>(ArenaError::OutOfMemory)
                && final(self)@ == old(self)@,
            base != 0 ==> outcome is Ok,
            outcome matches Ok(addr) ==> {
                &&& addr as int % align as int == 0
                &&& base <= addr
                &&& addr + size == final(self)@.chunks.last().cursor()
                &&& final(self)@.chunks.last().holds(addr as int, size as int)
                &&& final(self)@.chunks.len() == old(self)@.chunks.len() + 1
            },
    {
        proof {
            use_type_invariant(&*self);
            reveal(is_pow2);
        }
        let ghost before = self@;
        let mut new_chunk = ArenaChunk::<CSIZE, CALIGN>::new(base)?;
        let addr: usize = new_chunk.allocate(size, align).unwrap();
        let mut chunks = Vec::new();
        std::mem::swap(&mut chunks, &mut self.chunks);
        chunks.push(new_chunk);
        proof {
            let after = ArenaModel {
                capacity: CSIZE,
                align: CALIGN,
                chunks: Seq::new(chunks@.len(), |i: int| chunks@[i]@),
            };
            assert(after.chunks =~= before.extend(size, align, base).chunks);
            before.lemma_extend_wf(size, align, base);
            crate::align::lemma_round_up(base as int, align as int);
        }
        self.chunks = chunks;
        Ok(addr)
    }

    /// Gives the arena up: returns the block of every chunk, in the order
    /// the chunks were added, each with the layout it was asked for with,
    /// as they must go back to the memory source.
    pub fn release(self) -> (blocks: Vec<Block>)
        ensures
            blocks@ == self@.blocks(),
            self@.wf(),
    {
        proof {
            use_type_invariant(&self);
        }
        let mut blocks: Vec<Block> = Vec::new();
        let mut i: usize = 0;
        while i < self.chunks.len()
            invariant
                i <= self.chunks.len(),
                blocks@.len() == i,
                forall|k: int| 0 <= k < i ==> #[trigger] blocks@[k] == self@.blocks()[k],
            decreases self.chunks.len() - i,
        {
            let block = self.chunks[i].block();
            assert(self@.chunks[i as int] == self.chunks@[i as int]@);
            blocks.push(block);
            i += 1;
        }
        assert(blocks@ =~= self@.blocks());
        blocks
    }
}

impl Arena<CHUNK_SIZE, CHUNK_ALIGN> {
    /// An arena of the default chunk capacity and chunk alignment, with no
    /// chunk.
    pub fn default() -> (made: Self)
        ensures
            made@ == ArenaModel::empty(CHUNK_SIZE, CHUNK_ALIGN),
    {
        Self::new().unwrap()
    }
}

} // verus!
