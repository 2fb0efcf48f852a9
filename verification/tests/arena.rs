use neosh::arena::{Arena, Attempt, CHUNK_ALIGN, CHUNK_SIZE};
use neosh::error::ArenaError;
use neosh::layout::Block;

/// A memory source over made-up addresses. It keeps every block it has
/// handed out, zero-filled, and counts the bytes that are outstanding.
struct Source {
    next: usize,
    budget: usize,
    live: Vec<(Block, Vec<u8>)>,
    outstanding: usize,
}

impl Source {
    fn new() -> Source {
        Source { next: 0x1_0000, budget: usize::MAX, live: Vec::new(), outstanding: 0 }
    }

    fn with_budget(budget: usize) -> Source {
        Source { next: 0x1_0000, budget, live: Vec::new(), outstanding: 0 }
    }

    fn allocate_zeroed(&mut self, size: usize, align: usize) -> usize {
        if self.budget == 0 {
            return 0;
        }
        self.budget -= 1;
        let base = self.next.div_ceil(align) * align;
        self.next = base + size + 24;
        self.live.push((Block { base, size, align }, vec![0u8; size]));
        self.outstanding += size;
        base
    }

    fn deallocate(&mut self, block: Block) {
        let at = self.live.iter().position(|(live, _)| live.base == block.base);
        let at = at.unwrap();
        assert_eq!(self.live[at].0, block);
        self.live.remove(at);
        self.outstanding -= block.size;
    }

    fn byte(&mut self, addr: usize) -> &mut u8 {
        for (block, bytes) in self.live.iter_mut() {
            if block.base <= addr && addr < block.base + block.size {
                return &mut bytes[addr - block.base];
            }
        }
        panic!("address {addr:#x} lies in no live block");
    }
}

fn try_allocate<const CSIZE: usize, const CALIGN: usize>(
    arena: &mut Arena<CSIZE, CALIGN>,
    source: &mut Source,
    size: usize,
    align: usize,
) -> Result<usize, ArenaError> {
    match arena.try_allocate(size, align)? {
        Attempt::Placed(addr) => Ok(addr),
        Attempt::NeedsChunk => {
            let base = source.allocate_zeroed(CSIZE, CALIGN);
            assert!(base == 0 || arena.accepts(size, align, base));
            arena.grow(size, align, base)
        }
    }
}

fn allocate<const CSIZE: usize, const CALIGN: usize>(
    arena: &mut Arena<CSIZE, CALIGN>,
    source: &mut Source,
    size: usize,
    align: usize,
) -> usize {
    try_allocate(arena, source, size, align).unwrap()
}

fn teardown<const CSIZE: usize, const CALIGN: usize>(
    arena: Arena<CSIZE, CALIGN>,
    source: &mut Source,
) -> usize {
    let blocks = arena.release();
    let count = blocks.len();
    for block in blocks {
        source.deallocate(block);
    }
    count
}

fn apart(a: usize, m: usize, b: usize, n: usize) -> bool {
    a + m <= b || b + n <= a
}

#[test]
fn test_basic_allocation() {
    let mut source = Source::new();
    let mut arena = Arena::<1024, 1>::new().unwrap();
    let ptr = allocate(&mut arena, &mut source, 16, 1);
    assert!(ptr != 0);

    // Write to and read from allocated memory
    *source.byte(ptr) = 42;
    assert_eq!(*source.byte(ptr), 42);
}

#[test]
fn test_multiple_allocations_same_chunk() {
    let mut source = Source::new();
    let mut arena = Arena::<1024, 1>::new().unwrap();

    let ptr1 = allocate(&mut arena, &mut source, 32, 1);
    let ptr2 = allocate(&mut arena, &mut source, 32, 1);
    let ptr3 = allocate(&mut arena, &mut source, 32, 1);

    assert!(ptr1 != 0);
    assert!(ptr2 != 0);
    assert!(ptr3 != 0);

    // Ensure they are distinct and in order
    assert!(ptr1 < ptr2);
    assert!(ptr2 < ptr3);
}

#[test]
fn test_chunk_full_creates_new() {
    let mut source = Source::new();
    let mut arena = Arena::<64, 1>::new().unwrap(); // Small chunk

    // First allocation
    let _ptr1 = allocate(&mut arena, &mut source, 32, 1);

    // Second allocation should fit
    let _ptr2 = allocate(&mut arena, &mut source, 32, 1);

    // Third allocation should create new chunk
    let _ptr3 = allocate(&mut arena, &mut source, 32, 1);
}

#[test]
fn test_zero_sized_allocation() {
    let mut arena = Arena::<1024, 1>::new().unwrap();
    let result = arena.try_allocate(0, 1);
    assert!(result.is_err());
}

#[test]
fn test_out_of_memory_chunk() {
    let mut arena = Arena::<64, 1>::new().unwrap();
    let result = arena.try_allocate(128, 1); // Larger than chunk
    assert!(result.is_err());
}

#[test]
fn new_arena_has_no_chunk() {
    let arena = Arena::<64, 8>::new().unwrap();
    assert!(arena.release().is_empty());
    assert!(Arena::default().release().is_empty());
}

#[test]
fn default_arena_uses_default_chunks() {
    assert_eq!(CHUNK_SIZE, 1024 * 1024);
    assert_eq!(CHUNK_ALIGN, 16);
    let mut source = Source::new();
    let mut arena = Arena::default();
    assert_eq!(arena.try_allocate(CHUNK_SIZE + 1, 1), Err(ArenaError::TooLarge));
    let first = allocate(&mut arena, &mut source, CHUNK_SIZE, 16);
    assert_eq!(first, 0x1_0000);
    let blocks = arena.release();
    assert_eq!(blocks, vec![Block { base: 0x1_0000, size: 1024 * 1024, align: 16 }]);
}

#[test]
fn zero_size_is_refused_whatever_the_alignment() {
    let mut source = Source::new();
    let mut arena = Arena::<64, 1>::new().unwrap();
    for align in [0, 1, 2, 3, 16, 1usize << 40, usize::MAX] {
        assert_eq!(arena.try_allocate(0, align), Err(ArenaError::ZeroSized));
    }
    allocate(&mut arena, &mut source, 8, 1);
    assert_eq!(arena.try_allocate(0, 1), Err(ArenaError::ZeroSized));
    assert_eq!(source.live.len(), 1);
    assert_eq!(teardown(arena, &mut source), 1);
}

#[test]
fn oversized_request_is_refused_and_makes_no_chunk() {
    let mut source = Source::new();
    let mut arena = Arena::<64, 1>::new().unwrap();
    assert_eq!(try_allocate(&mut arena, &mut source, 65, 1), Err(ArenaError::TooLarge));
    assert_eq!(try_allocate(&mut arena, &mut source, usize::MAX, 1), Err(ArenaError::TooLarge));
    assert!(source.live.is_empty());
    assert_eq!(try_allocate(&mut arena, &mut source, 64, 1), Ok(0x1_0000));
    assert_eq!(try_allocate(&mut arena, &mut source, 65, 1), Err(ArenaError::TooLarge));
    assert_eq!(source.live.len(), 1);
    assert_eq!(teardown(arena, &mut source), 1);
}

#[test]
fn too_large_comes_before_invalid_layout() {
    let mut arena = Arena::<64, 1>::new().unwrap();
    assert_eq!(arena.try_allocate(65, 3), Err(ArenaError::TooLarge));
    assert_eq!(arena.try_allocate(64, 3), Err(ArenaError::InvalidLayout));
}

#[test]
fn request_without_layout_is_refused() {
    let mut source = Source::new();
    let mut arena = Arena::<64, 1>::new().unwrap();
    for align in [0, 3, 6, 12, 1000, usize::MAX] {
        assert_eq!(arena.try_allocate(8, align), Err(ArenaError::InvalidLayout));
    }
    // the largest power of two is an alignment, but leaves room for no byte
    assert_eq!(
        arena.try_allocate(1, 1usize << (usize::BITS - 1)),
        Err(ArenaError::InvalidLayout)
    );
    assert!(source.live.is_empty());
    assert_eq!(teardown(arena, &mut source), 0);
}

#[test]
fn chunk_without_layout_is_refused_at_first_request() {
    let mut arena = Arena::<64, 3>::new().unwrap();
    assert_eq!(arena.try_allocate(8, 1), Err(ArenaError::InvalidLayout));
    assert_eq!(arena.try_allocate(0, 1), Err(ArenaError::ZeroSized));
    assert_eq!(arena.try_allocate(65, 1), Err(ArenaError::TooLarge));
    assert!(!arena.accepts(8, 1, 0x3000));
    assert!(arena.release().is_empty());
}

#[test]
fn refused_block_is_out_of_memory_and_changes_nothing() {
    let mut source = Source::with_budget(1);
    let mut arena = Arena::<64, 1>::new().unwrap();
    assert_eq!(try_allocate(&mut arena, &mut source, 48, 1), Ok(0x1_0000));
    assert_eq!(try_allocate(&mut arena, &mut source, 48, 1), Err(ArenaError::OutOfMemory));
    // the current chunk is as it was: 16 bytes are left, at the same place
    assert_eq!(arena.try_allocate(32, 1), Ok(Attempt::NeedsChunk));
    assert_eq!(arena.try_allocate(16, 1), Ok(Attempt::Placed(0x1_0000 + 48)));
    assert_eq!(teardown(arena, &mut source), 1);
    assert_eq!(source.outstanding, 0);
}

#[test]
fn refused_first_block_leaves_the_arena_empty() {
    let mut arena = Arena::<64, 1>::new().unwrap();
    assert_eq!(arena.try_allocate(8, 1), Ok(Attempt::NeedsChunk));
    assert_eq!(arena.grow(8, 1, 0), Err(ArenaError::OutOfMemory));
    assert_eq!(arena.try_allocate(8, 1), Ok(Attempt::NeedsChunk));
    assert!(arena.release().is_empty());
}

#[test]
fn growth_happens_exactly_at_the_capacity_boundary() {
    let mut source = Source::new();
    let mut arena = Arena::<64, 1>::new().unwrap();
    let base0 = 0x1_0000;

    assert_eq!(allocate(&mut arena, &mut source, 32, 1), base0);
    assert_eq!(source.live.len(), 1);
    assert_eq!(allocate(&mut arena, &mut source, 32, 1), base0 + 32);
    assert_eq!(source.live.len(), 1);
    let third = allocate(&mut arena, &mut source, 32, 1);
    assert_eq!(source.live.len(), 2);
    let base1 = source.live[1].0.base;
    assert_eq!(third, base1);
    assert_ne!(base1, base0);
    assert!(base1 < base0 || base1 >= base0 + 64);
    assert_eq!(teardown(arena, &mut source), 2);
}

#[test]
fn a_failed_fit_leaves_the_rest_of_the_chunk_usable() {
    let mut source = Source::new();
    let mut arena = Arena::<64, 1>::new().unwrap();
    assert_eq!(allocate(&mut arena, &mut source, 40, 1), 0x1_0000);
    // 32 bytes do not fit into the 24 that are left, 24 do
    assert_eq!(arena.try_allocate(32, 1), Ok(Attempt::NeedsChunk));
    assert_eq!(arena.try_allocate(24, 1), Ok(Attempt::Placed(0x1_0000 + 40)));
    assert_eq!(arena.try_allocate(1, 1), Ok(Attempt::NeedsChunk));
}

#[test]
fn addresses_are_rounded_up_to_the_alignment() {
    let mut source = Source::new();
    let mut arena = Arena::<1024, 16>::new().unwrap();
    assert_eq!(allocate(&mut arena, &mut source, 1, 1), 0x1_0000);
    assert_eq!(allocate(&mut arena, &mut source, 4, 4), 0x1_0004);
    assert_eq!(allocate(&mut arena, &mut source, 1, 1), 0x1_0008);
    assert_eq!(allocate(&mut arena, &mut source, 8, 8), 0x1_0010);
    assert_eq!(allocate(&mut arena, &mut source, 3, 2), 0x1_0018);
    assert_eq!(allocate(&mut arena, &mut source, 100, 64), 0x1_0040);
    assert_eq!(allocate(&mut arena, &mut source, 1, 256), 0x1_0100);
}

#[test]
fn padding_counts_against_the_capacity() {
    let mut source = Source::new();
    let mut arena = Arena::<64, 16>::new().unwrap();
    assert_eq!(allocate(&mut arena, &mut source, 1, 1), 0x1_0000);
    // 48 bytes from 0x1_0010 end at the last byte of the chunk
    assert_eq!(arena.try_allocate(49, 16), Ok(Attempt::NeedsChunk));
    assert_eq!(arena.try_allocate(48, 16), Ok(Attempt::Placed(0x1_0010)));
}

#[test]
fn accepts_tells_which_blocks_may_join() {
    let mut arena = Arena::<64, 16>::new().unwrap();
    assert_eq!(arena.try_allocate(8, 8), Ok(Attempt::NeedsChunk));
    assert!(!arena.accepts(8, 8, 0));
    assert!(!arena.accepts(8, 8, 0x1008)); // not on the chunk boundary
    assert!(!arena.accepts(8, 8, usize::MAX - 15)); // leaves the address space
    assert!(!arena.accepts(8, 3, 0x1000)); // no alignment
    assert!(arena.accepts(8, 8, 0x1000));
    assert_eq!(arena.grow(8, 8, 0x1000), Ok(0x1000));

    assert_eq!(arena.try_allocate(64, 16), Ok(Attempt::NeedsChunk));
    for base in [0x1000, 0x0fd0, 0x1030] {
        assert!(!arena.accepts(64, 16, base)); // shares addresses with the chunk
    }
    assert!(arena.accepts(64, 16, 0x0fc0));
    assert!(arena.accepts(64, 16, 0x1040));
    // aligned to 32 the request starts at 0x1060 and ends beyond the block
    assert!(!arena.accepts(64, 32, 0x1050));
    assert!(arena.accepts(48, 32, 0x1050));
    assert_eq!(arena.grow(64, 16, 0x1040), Ok(0x1040));
    assert_eq!(arena.release().len(), 2);
}

#[test]
fn a_block_aligned_beyond_the_chunk_alignment_is_served_after_padding() {
    let mut arena = Arena::<64, 1>::new().unwrap();
    assert_eq!(arena.try_allocate(32, 16), Ok(Attempt::NeedsChunk));
    assert!(arena.accepts(32, 16, 0x1001));
    assert_eq!(arena.grow(32, 16, 0x1001), Ok(0x1010));
    // 15 bytes of padding and 32 of payload are used, 17 are left
    assert_eq!(arena.try_allocate(18, 1), Ok(Attempt::NeedsChunk));
    assert_eq!(arena.try_allocate(17, 1), Ok(Attempt::Placed(0x1030)));
}

#[test]
fn allocate_answers_as_try_allocate_does() {
    let mut arena = Arena::<64, 1>::new().unwrap();
    assert_eq!(arena.allocate(32, 1), Attempt::NeedsChunk);
    assert_eq!(arena.grow(32, 1, 0x2000), Ok(0x2000));
    assert_eq!(arena.allocate(32, 1), Attempt::Placed(0x2020));
    assert_eq!(arena.allocate(1, 1), Attempt::NeedsChunk);
}

#[test]
fn returned_ranges_are_aligned_inside_one_chunk_and_pairwise_apart() {
    let mut source = Source::new();
    let mut arena = Arena::<256, 8>::new().unwrap();
    let mut issued: Vec<(usize, usize)> = Vec::new();
    let mut seed: usize = 12345;
    for _ in 0..400 {
        seed = seed.wrapping_mul(6364136223846793005).wrapping_add(1442695040888963407);
        let size = 1 + (seed >> 33) % 256;
        let align = 1usize << ((seed >> 20) % 4);
        let addr = allocate(&mut arena, &mut source, size, align);
        assert_eq!(addr % align, 0);
        let inside = source
            .live
            .iter()
            .filter(|(block, _)| block.base <= addr && addr + size <= block.base + block.size)
            .count();
        assert_eq!(inside, 1);
        for &(other, length) in issued.iter() {
            assert!(apart(addr, size, other, length));
        }
        issued.push((addr, size));
    }
    let chunks = source.live.len();
    assert_eq!(teardown(arena, &mut source), chunks);
}

#[test]
fn interleaved_workers_get_disjoint_ranges() {
    // 4 workers take turns, as a lock would make them; each asks 64 times
    // for 48 bytes
    let workers = 4;
    let rounds = 64;
    let size = 48;
    let mut source = Source::new();
    let mut arena = Arena::<1024, 16>::new().unwrap();
    let mut ranges: Vec<Vec<usize>> = vec![Vec::new(); workers];
    for _ in 0..rounds {
        for worker in 0..workers {
            ranges[worker].push(allocate(&mut arena, &mut source, size, 16));
        }
    }
    let mut all: Vec<usize> = ranges.into_iter().flatten().collect();
    all.sort();
    assert_eq!(all.len(), workers * rounds);
    for pair in all.windows(2) {
        assert!(pair[0] + size <= pair[1]);
    }
    let bytes = all.len() * size;
    assert_eq!(bytes, 12288);
    // 21 ranges of 48 bytes fit into one chunk of 1024
    let chunks = source.live.len();
    assert_eq!(chunks, (workers * rounds).div_ceil(21));
    assert!(chunks >= bytes.div_ceil(1024));
    assert_eq!(teardown(arena, &mut source), chunks);
}

#[test]
fn teardown_hands_every_block_back_once() {
    let mut source = Source::new();
    let mut arena = Arena::<128, 32>::new().unwrap();
    for round in 0..50 {
        allocate(&mut arena, &mut source, 1 + round % 128, 1 << (round % 6));
        let _ = try_allocate(&mut arena, &mut source, 0, 1);
        let _ = try_allocate(&mut arena, &mut source, 129, 1);
    }
    let handed_out: Vec<Block> = source.live.iter().map(|(block, _)| *block).collect();
    assert!(handed_out.len() > 1);
    assert_eq!(source.outstanding, handed_out.len() * 128);
    let blocks = arena.release();
    assert_eq!(blocks, handed_out);
    for block in blocks {
        assert_eq!((block.size, block.align), (128, 32));
        source.deallocate(block);
    }
    assert_eq!(source.outstanding, 0);
    assert!(source.live.is_empty());
}

#[test]
fn blocks_come_zeroed_and_are_not_touched() {
    let mut source = Source::new();
    let mut arena = Arena::<64, 1>::new().unwrap();
    let first = allocate(&mut arena, &mut source, 32, 1);
    *source.byte(first + 31) = 7;
    let second = allocate(&mut arena, &mut source, 32, 1);
    assert_eq!(*source.byte(second), 0);
    assert_eq!(*source.byte(first + 31), 7);
}
