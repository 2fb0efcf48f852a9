//! What holds of an arena over a whole sequence of requests.
//!
//! One allocation is `try_allocate`, followed by `grow` where the answer was
//! `NeedsChunk`. A lock around that pair makes the allocations of all
//! threads one sequence, in the order in which the lock was taken; this
//! module speaks of such a sequence.

use crate::align::lemma_round_up;
use crate::arena::{ArenaModel, Attempt};
use crate::chunk::ChunkModel;
use crate::error::ArenaError;
use crate::layout::Block;
use vstd::arithmetic::power2::is_pow2;
use vstd::prelude::*;

verus! {

/// One allocation: what is asked for, and what the memory source answers
/// if this allocation has to ask it for a block (0 where it refuses).
pub struct Request {
    pub size: usize,
    pub align: usize,
    pub block: usize,
}

/// Whether `[a, a + m)` and `[b, b + n)` share no address.
pub open spec fn ranges_apart(a: int, m: int, b: int, n: int) -> bool {
    a + m <= b || b + n <= a
}

impl ArenaModel {
    /// One whole allocation: the arena afterwards, and what the caller gets.
    pub open spec fn serve(self, request: Request) -> (ArenaModel, Result<usize, ArenaError>) {
        match self.try_allocate(request.size, request.align).1 {
            Err(error) => (self, Err(error)),
            Ok(Attempt::Placed(addr)) => (
                self.try_allocate(request.size, request.align).0,
                Ok(addr),
            ),
            Ok(Attempt::NeedsChunk) => self.grow(request.size, request.align, request.block),
        }
    }

    /// Whether the block that comes with the request may be handed to
    /// `grow`, where the request has to fetch one and the source does not
    /// refuse.
    pub open spec fn supplied(self, request: Request) -> bool {
        self.wants_chunk(request.size, request.align) && request.block != 0 ==> self.accepts(
            request.size,
            request.align,
            request.block,
        )
    }

    /// The arena after the requests have been served one after the other.
    pub open spec fn after(self, requests: Seq<Request>) -> ArenaModel
        decreases requests.len(),
    {
        if requests.len() == 0 {
            self
        } else {
            self.after(requests.drop_last()).serve(requests.last()).0
        }
    }

    /// What the caller gets for the request at `index`.
    pub open spec fn outcome(self, requests: Seq<Request>, index: int) -> Result<
        usize,
        ArenaError,
    > {
        self.after(requests.take(index)).serve(requests[index]).1
    }

    /// Whether every request that fetches a block comes with one that may
    /// be handed to `grow`.
    pub open spec fn all_supplied(self, requests: Seq<Request>) -> bool {
        forall|i: int|
            0 <= i < requests.len() ==> self.after(#[trigger] requests.take(i)).supplied(
                requests[i],
            )
    }

    /// Whether the request takes its block from the memory source.
    pub open spec fn fetches(self, request: Request) -> bool {
        self.wants_chunk(request.size, request.align) && request.block != 0
    }

    /// The blocks that the requests take from the memory source, in the
    /// order in which they are taken.
    pub open spec fn fetched(self, requests: Seq<Request>) -> Seq<Block>
        decreases requests.len(),
    {
        if requests.len() == 0 {
            Seq::empty()
        } else if self.after(requests.drop_last()).fetches(requests.last()) {
            self.fetched(requests.drop_last()).push(
                Block { base: requests.last().block, size: self.capacity, align: self.align },
            )
        } else {
            self.fetched(requests.drop_last())
        }
    }

    /// Whether `[addr, addr + size)` lies inside the handed-out part of one
    /// chunk.
    pub open spec fn covers(self, addr: int, size: int) -> bool {
        exists|k: int| 0 <= k < self.chunks.len() && (#[trigger] self.chunks[k]).issued(addr, size)
    }

    /// One allocation keeps the arena well formed.
    pub proof fn lemma_serve_wf(self, request: Request)
        requires
            self.wf(),
            self.supplied(request),
        ensures
            self.serve(request).0.wf(),
    {
        match self.try_allocate(request.size, request.align).1 {
            Err(_) => {},
            Ok(Attempt::Placed(_)) => {
                self.lemma_place_wf(request.size, request.align);
            },
            Ok(Attempt::NeedsChunk) => {
                if request.block != 0 {
                    self.lemma_extend_wf(request.size, request.align, request.block);
                }
            },
        }
    }

    /// A successful allocation returns an address on the boundary asked
    /// for, and its range lies inside the block of the current chunk, in the
    /// part that is handed out afterwards.
    pub proof fn lemma_serve_in_chunk(self, request: Request)
        requires
            self.wf(),
            self.supplied(request),
            self.serve(request).1 is Ok,
        ensures
            self.serve(request).1->Ok_0 as int % request.align as int == 0,
            self.serve(request).0.chunks.len() > 0,
            self.serve(request).0.chunks.last().issued(
                self.serve(request).1->Ok_0 as int,
                request.size as int,
            ),
            self.serve(request).0.chunks.last().holds(
                self.serve(request).1->Ok_0 as int,
                request.size as int,
            ),
            0 < request.size <= self.capacity,
            is_pow2(request.align as int),
    {
        reveal(is_pow2);
        self.lemma_serve_wf(request);
        match self.try_allocate(request.size, request.align).1 {
            Err(_) => {},
            Ok(Attempt::Placed(_)) => {
                lemma_round_up(self.chunks.last().cursor(), request.align as int);
            },
            Ok(Attempt::NeedsChunk) => {
                lemma_round_up(request.block as int, request.align as int);
            },
        }
    }

    /// What is handed out stays handed out.
    pub proof fn lemma_serve_keeps(self, request: Request, addr: int, size: int)
        requires
            self.wf(),
            self.supplied(request),
            self.covers(addr, size),
        ensures
            self.serve(request).0.covers(addr, size),
    {
        let k = choose|k: int| 0 <= k < self.chunks.len() && (#[trigger] self.chunks[k]).issued(
            addr,
            size,
        );
        let next = self.serve(request).0;
        reveal(is_pow2);
        match self.try_allocate(request.size, request.align).1 {
            Err(_) => {},
            Ok(Attempt::Placed(_)) => {
                lemma_round_up(self.chunks.last().cursor(), request.align as int);
                assert(next.chunks[k].issued(addr, size));
            },
            Ok(Attempt::NeedsChunk) => {
                assert(next.chunks[k].issued(addr, size));
            },
        }
    }

    /// One allocation removes no chunk and moves none: every chunk keeps its
    /// place, its block and its capacity, and has no less in use than
    /// before.
    pub proof fn lemma_serve_monotone(self, request: Request, k: int)
        requires
            self.wf(),
            0 <= k < self.chunks.len(),
        ensures
            k < self.serve(request).0.chunks.len(),
            self.serve(request).0.chunks[k].base == self.chunks[k].base,
            self.serve(request).0.chunks[k].capacity == self.chunks[k].capacity,
            self.serve(request).0.chunks[k].used >= self.chunks[k].used,
    {
        reveal(is_pow2);
        match self.try_allocate(request.size, request.align).1 {
            Err(_) => {},
            Ok(Attempt::Placed(_)) => {
                lemma_round_up(self.chunks.last().cursor(), request.align as int);
            },
            Ok(Attempt::NeedsChunk) => {},
        }
    }

    /// A successful allocation returns a range that shares no address with
    /// anything handed out before.
    pub proof fn lemma_serve_fresh(self, request: Request, addr: int, size: int)
        requires
            self.wf(),
            self.supplied(request),
            self.covers(addr, size),
            self.serve(request).1 is Ok,
        ensures
            ranges_apart(addr, size, self.serve(request).1->Ok_0 as int, request.size as int),
    {
        let k = choose|k: int| 0 <= k < self.chunks.len() && (#[trigger] self.chunks[k]).issued(
            addr,
            size,
        );
        let last = self.chunks.len() - 1;
        reveal(is_pow2);
        assert(self.chunks[k].wf());
        match self.try_allocate(request.size, request.align).1 {
            Err(_) => {},
            Ok(Attempt::Placed(_)) => {
                lemma_round_up(self.chunks.last().cursor(), request.align as int);
                assert(self.chunks[last].wf());
                if k < last {
                    assert(self.chunks[k].apart(self.chunks[last]));
                }
            },
            Ok(Attempt::NeedsChunk) => {
                let fresh = ChunkModel::fresh(request.block as int, self.capacity as int);
                lemma_round_up(request.block as int, request.align as int);
                assert(self.chunks[k].apart(fresh));
            },
        }
    }

    /// Every allocation of a sequence finds the arena well formed.
    pub proof fn lemma_after_wf(self, requests: Seq<Request>, count: int)
        requires
            self.wf(),
            self.all_supplied(requests),
            0 <= count <= requests.len(),
        ensures
            self.after(requests.take(count)).wf(),
        decreases count,
    {
        if count > 0 {
            self.lemma_after_wf(requests, count - 1);
            self.lemma_after_unfold(requests, count);
            assert(self.after(requests.take(count - 1)).supplied(requests[count - 1]));
            self.after(requests.take(count - 1)).lemma_serve_wf(requests[count - 1]);
        }
    }

    /// The arena after `count` requests is the arena after one fewer, with
    /// the last of them served.
    pub proof fn lemma_after_unfold(self, requests: Seq<Request>, count: int)
        requires
            0 < count <= requests.len(),
        ensures
            self.after(requests.take(count)) == self.after(requests.take(count - 1)).serve(
                requests[count - 1],
            ).0,
    {
        assert(requests.take(count).drop_last() =~= requests.take(count - 1));
        assert(requests.take(count).last() == requests[count - 1]);
    }

    /// What one point of a sequence has handed out, every later point has
    /// handed out.
    pub proof fn lemma_after_keeps(
        self,
        requests: Seq<Request>,
        early: int,
        late: int,
        addr: int,
        size: int,
    )
        requires
            self.wf(),
            self.all_supplied(requests),
            0 <= early <= late <= requests.len(),
            self.after(requests.take(early)).covers(addr, size),
        ensures
            self.after(requests.take(late)).covers(addr, size),
        decreases late - early,
    {
        if early < late {
            self.lemma_after_keeps(requests, early, late - 1, addr, size);
            self.lemma_after_wf(requests, late - 1);
            self.lemma_after_unfold(requests, late);
            assert(self.after(requests.take(late - 1)).supplied(requests[late - 1]));
            self.after(requests.take(late - 1)).lemma_serve_keeps(requests[late - 1], addr, size);
        }
    }

    /// One allocation changes neither the chunk capacity nor the chunk
    /// alignment, and adds to the blocks of the arena exactly the block it
    /// takes from the memory source, at the end.
    pub proof fn lemma_serve_blocks(self, request: Request)
        ensures
            self.serve(request).0.capacity == self.capacity,
            self.serve(request).0.align == self.align,
            self.fetches(request) ==> self.serve(request).0.blocks() == self.blocks().push(
                Block { base: request.block, size: self.capacity, align: self.align },
            ),
            !self.fetches(request) ==> self.serve(request).0.blocks() == self.blocks(),
    {
        let next = self.serve(request).0;
        if self.fetches(request) {
            assert(next.blocks() =~= self.blocks().push(
                Block { base: request.block, size: self.capacity, align: self.align },
            ));
        } else {
            assert(next.blocks() =~= self.blocks());
        }
    }

    /// The blocks of the arena after a sequence of allocations are those it
    /// had before, followed by those the sequence took from the memory
    /// source: giving the arena up hands back every block that was taken,
    /// and no other.
    pub proof fn lemma_blocks_balance(self, requests: Seq<Request>)
        ensures
            self.after(requests).capacity == self.capacity,
            self.after(requests).align == self.align,
            self.after(requests).blocks() == self.blocks() + self.fetched(requests),
        decreases requests.len(),
    {
        if requests.len() == 0 {
            assert(self.blocks() + self.fetched(requests) =~= self.blocks());
        } else {
            let earlier = requests.drop_last();
            self.lemma_blocks_balance(earlier);
            self.after(earlier).lemma_serve_blocks(requests.last());
            assert(self.after(requests).blocks() =~= self.blocks() + self.fetched(requests));
        }
    }

    /// Over a sequence of allocations the arena loses no chunk and moves
    /// none, and no chunk has less in use at the end than at the start.
    pub proof fn lemma_after_monotone(self, requests: Seq<Request>, k: int)
        requires
            self.wf(),
            self.all_supplied(requests),
            0 <= k < self.chunks.len(),
        ensures
            k < self.after(requests).chunks.len(),
            self.after(requests).chunks[k].base == self.chunks[k].base,
            self.after(requests).chunks[k].capacity == self.chunks[k].capacity,
            self.after(requests).chunks[k].used >= self.chunks[k].used,
        decreases requests.len(),
    {
        if requests.len() > 0 {
            let earlier = requests.drop_last();
            assert forall|i: int| 0 <= i < earlier.len() implies self.after(
                #[trigger] earlier.take(i),
            ).supplied(earlier[i]) by {
                assert(earlier.take(i) =~= requests.take(i));
            }
            self.lemma_after_monotone(earlier, k);
            assert(requests.take(earlier.len() as int) =~= earlier);
            self.lemma_after_wf(requests, earlier.len() as int);
            self.after(earlier).lemma_serve_monotone(requests.last(), k);
        }
    }

    /// The ranges of any two successful allocations of a sequence share no
    /// address.
    pub proof fn lemma_allocations_disjoint(self, requests: Seq<Request>, i: int, j: int)
        requires
            self.wf(),
            self.all_supplied(requests),
            0 <= i < j < requests.len(),
            self.outcome(requests, i) is Ok,
            self.outcome(requests, j) is Ok,
        ensures
            ranges_apart(
                self.outcome(requests, i)->Ok_0 as int,
                requests[i].size as int,
                self.outcome(requests, j)->Ok_0 as int,
                requests[j].size as int,
            ),
    {
        let first = self.outcome(requests, i)->Ok_0 as int;
        let before_i = self.after(requests.take(i));
        let before_j = self.after(requests.take(j));
        self.lemma_after_wf(requests, i);
        self.lemma_after_wf(requests, j);
        assert(before_i.supplied(requests[i]));
        assert(before_j.supplied(requests[j]));
        before_i.lemma_serve_in_chunk(requests[i]);
        self.lemma_after_unfold(requests, i + 1);
        let after_i = self.after(requests.take(i + 1));
        assert(after_i.chunks[after_i.chunks.len() - 1].issued(first, requests[i].size as int));
        assert(after_i.covers(first, requests[i].size as int));
        self.lemma_after_keeps(requests, i + 1, j, first, requests[i].size as int);
        before_j.lemma_serve_fresh(requests[j], first, requests[i].size as int);
    }
}

} // verus!
