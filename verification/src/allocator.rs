//! The program heap: a bump allocator over it, an allocator that refuses to
//! allocate, and the placement of values at fixed offsets.

use crate::align::{align_to, align_up};
use vstd::arithmetic::power2::is_pow2;
use vstd::layout::valid_layout;
use vstd::prelude::*;

verus! {

/// Start address of the memory region used for program heap.
pub const HEAP_START_ADDRESS: u64 = 0x3_0000_0000;

/// Length of the heap memory region used for program heap. Deprecated: use
/// `MAX_HEAP_LENGTH` instead.
pub const HEAP_LENGTH: usize = 32 * 1024;

/// Maximum heap length in bytes that a program can request.
pub const MAX_HEAP_LENGTH: u32 = 256 * 1024;

/// The size and the alignment of a block of memory.
#[derive(Clone, Copy, Debug, PartialEq, Eq, Structural)]
pub struct Layout {
    pub size: usize,
    pub align: usize,
}

impl Layout {
    /// Whether the alignment is a power of two and the size, rounded up to a
    /// multiple of the alignment, is at most `isize::MAX`.
    pub open spec fn wf(self) -> bool {
        valid_layout(self.size, self.align)
    }

    /// A layout is valid exactly if its alignment is a power of two and its size
    /// leaves room below the middle of the address space for one alignment less
    /// a byte.
    pub proof fn law_valid_layouts(self)
        ensures
            self.wf() <==> is_pow2(self.align as int) && self.size + self.align - 1 <= isize::MAX,
    {
        if is_pow2(self.align as int) {
            let align = self.align as int;
            let half = isize::MAX + 1;
            crate::align::lemma_pow2_positive(align);
            crate::align::lemma_pow2_divides_half(self.align);
            vstd::arithmetic::div_mod::lemma_fundamental_div_mod(half, align);
            let quotient = half / align;
            assert(half - 1 == (quotient - 1) * align + (align - 1)) by (nonlinear_arith)
                requires
                    half == align * quotient,
            ;
            vstd::arithmetic::div_mod::lemma_fundamental_div_mod_converse(
                half - 1,
                align,
                quotient - 1,
                align - 1,
            );
        }
    }

    /// Constructs a layout, if the size and the alignment make a valid one.
    pub fn from_size_align(size: usize, align: usize) -> (layout: Option<Layout>)
        ensures
            match layout {
                Some(layout) => layout.wf() && layout.size == size && layout.align == align,
                None => !valid_layout(size, align),
            },
    {
        if align == 0 {
            proof {
                reveal(vstd::arithmetic::power2::is_pow2);
            }
            return None;
        }
        proof {
            crate::align::lemma_pow2_by_bits(align);
        }
        let largest: usize = isize::MAX as usize;
        proof {
            vstd::arithmetic::div_mod::lemma_mod_decreases(largest as nat, align as nat);
        }
        if align & (align - 1) == 0 && size <= largest - largest % align {
            Some(Layout { size, align })
        } else {
            None
        }
    }
}

/// The bump allocator used as the default heap when running programs.
///
/// Memory is allocated by moving a position forward through the heap. The
/// position is stored in the first word of the heap; the runtime hands the heap
/// over zeroed, so that a zero stands for a heap of which nothing has been
/// allocated yet.
#[derive(Clone, Copy, Debug)]
pub struct BumpAllocator {
    start: usize,
    end: usize,
}

/// The size of the word that holds the position.
pub open spec fn word_size() -> int {
    vstd::layout::size_of::<usize>() as int
}

impl BumpAllocator {
    /// The address of the first byte of the heap.
    pub closed spec fn heap_start(self) -> int {
        self.start as int
    }

    /// The address after the last byte of the heap.
    pub closed spec fn heap_end(self) -> int {
        self.end as int
    }

    /// Whether the heap starts at an aligned address and holds at least the
    /// word with the position.
    pub open spec fn wf(self) -> bool {
        &&& 0 <= self.heap_start()
        &&& self.heap_start() % word_size() == 0
        &&& self.heap_start() + word_size() <= self.heap_end() <= usize::MAX
    }

    /// Whether `position` is one that the first word of the heap may hold.
    pub open spec fn valid_position(self, position: int) -> bool {
        position == 0 || self.heap_start() + word_size() <= position <= self.heap_end()
    }

    /// The address from which on the heap is free.
    pub open spec fn frontier(self, position: int) -> int {
        if position == 0 {
            self.heap_start() + word_size()
        } else {
            position
        }
    }

    /// The address at which the next block would start.
    pub open spec fn block(self, position: int, layout: Layout) -> int {
        align_up(self.frontier(position), layout.align as int)
    }

    /// Whether the heap has room for a block.
    pub open spec fn fits(self, position: int, layout: Layout) -> bool {
        &&& layout.size <= MAX_HEAP_LENGTH
        &&& self.block(position, layout) + layout.size <= self.heap_end()
    }

    /// Whether the addresses that a request leads to are within the range of
    /// an address.
    pub open spec fn addressable(self, position: int, layout: Layout) -> bool {
        &&& self.frontier(position) + layout.align - 1 <= usize::MAX
        &&& layout.size <= MAX_HEAP_LENGTH ==> self.block(position, layout) + layout.size
            <= usize::MAX
    }

    /// The position after a request: the end of the block if there was room for
    /// it, else where it was.
    pub open spec fn next_position(self, position: int, layout: Layout) -> int {
        if self.fits(position, layout) {
            self.block(position, layout) + layout.size
        } else {
            position
        }
    }

    /// Whether a request that finds the heap at `position` ends with `address`
    /// and with the heap at `after`: if there is room for the block, with its
    /// address and its end; else with no address and the heap as it was.
    pub open spec fn outcome(
        self,
        position: int,
        layout: Layout,
        address: Option<usize>,
        after: int,
    ) -> bool {
        match address {
            Some(address) => {
                &&& self.fits(position, layout)
                &&& address == self.block(position, layout)
                &&& after == address + layout.size
            },
            None => {
                &&& !self.fits(position, layout)
                &&& after == position
            },
        }
    }

    /// Creates the allocator for the `len` bytes from address `start` on.
    pub fn new_unchecked(start: usize, len: usize) -> (allocator: Self)
        requires
            start + len <= usize::MAX,
        ensures
            allocator.heap_start() == start,
            allocator.heap_end() == start + len,
    {
        BumpAllocator { start, end: start + len }
    }

    /// Allocates memory as described by the given `layout`, where `position` is
    /// the word at the start of the heap.
    ///
    /// Returns the address of newly allocated memory, or `None` to indicate
    /// allocation failure.
    pub fn allocate(&self, position: &mut usize, layout: Layout) -> (address: Option<usize>)
        requires
            layout.wf(),
            self.addressable(*old(position) as int, layout),
        ensures
            self.outcome(*old(position) as int, layout, address, *final(position) as int),
            *final(position) == self.next_position(*old(position) as int, layout),
            match address {
                Some(address) => {
                    &&& address % layout.align == 0
                    &&& *old(position) <= address
                    &&& address + layout.size <= self.heap_end()
                    &&& *final(position) == address + layout.size
                },
                None => *final(position) == *old(position),
            },
    {
        proof {
            crate::align::lemma_pow2_positive(layout.align as int);
        }
        let mut pos: usize = *position;

        if pos == 0 {
            // First time, set starting position.
            pos = self.start + core::mem::size_of::<usize>();
        }
        // Determines the allocation address, adjusting the alignment for the
        // type being allocated.
        let allocation: usize = align_to(pos, layout.align);

        if layout.size > MAX_HEAP_LENGTH as usize || self.end < allocation + layout.size {
            return None;
        }
        // Updates the heap pointer.
        *position = allocation + layout.size;

        Some(allocation)
    }

    /// Behaves like `allocate`. The memory is zeroed, since the runtime zeroes the
    /// heap and no block is handed out twice.
    pub fn alloc_zeroed(&self, position: &mut usize, layout: Layout) -> (address: Option<usize>)
        requires
            layout.wf(),
            self.addressable(*old(position) as int, layout),
        ensures
            self.outcome(*old(position) as int, layout, address, *final(position) as int),
            *final(position) == self.next_position(*old(position) as int, layout),
            match address {
                Some(address) => {
                    &&& address % layout.align == 0
                    &&& *old(position) <= address
                    &&& address + layout.size <= self.heap_end()
                    &&& *final(position) == address + layout.size
                },
                None => *final(position) == *old(position),
            },
    {
        self.allocate(position, layout)
    }

    /// Has no effect: the bump allocator does not free memory.
    pub fn dealloc(&self, position: &mut usize, _address: usize, _layout: Layout)
        ensures
            *final(position) == *old(position),
    {
    }
}

impl BumpAllocator {
    /// The position after a series of requests, served in order.
    pub open spec fn position_after(self, position: int, requests: Seq<Layout>) -> int
        decreases requests.len(),
    {
        if requests.len() == 0 {
            position
        } else {
            self.next_position(
                self.position_after(position, requests.drop_last()),
                requests.last(),
            )
        }
    }

    /// The position from which request number `i` of a series is served.
    pub open spec fn position_before(self, position: int, requests: Seq<Layout>, i: int) -> int {
        self.position_after(position, requests.take(i))
    }

    /// How a request ends. The free part of the heap starts at the position, or
    /// after the word with the position if that is zero. A request is served
    /// exactly if it is for no more than 256 KiB and some aligned address of the
    /// free part has room for the block. It is given the first such address, and
    /// the position moves to the end of the block and no further. A request that
    /// is not served leaves the position alone.
    pub proof fn law_request_takes_its_block(
        self,
        position: int,
        layout: Layout,
        address: usize,
        after: int,
    )
        requires
            layout.align > 0,
        ensures
            ({
                let free = if position == 0 {
                    self.heap_start() + vstd::layout::size_of::<usize>()
                } else {
                    position
                };
                let align = layout.align as int;
                &&& self.frontier(position) == free
                &&& self.outcome(position, layout, Some(address), after) <==> {
                    &&& layout.size <= 262144
                    &&& address as int % align == 0
                    &&& free <= address < free + align
                    &&& address + layout.size == after
                    &&& after <= self.heap_end()
                }
                &&& self.outcome(position, layout, None, after) <==> {
                    &&& after == position
                    &&& layout.size > 262144 || forall|a: int|
                        free <= a && #[trigger] (a % align) == 0 ==> a + layout.size
                            > self.heap_end()
                }
            }),
    {
        let free = self.frontier(position);
        let align = layout.align as int;
        let block = self.block(position, layout);
        crate::align::law_align_up_is_least(free, align, address as int);
        if free <= address < free + align && address as int % align == 0 {
            lemma_aligned_in_reach_is_unique(free, align, address as int, block);
        }
        assert forall|a: int|
            free <= a && #[trigger] (a % align) == 0 && !self.fits(position, layout)
                && layout.size <= 262144 implies a + layout.size > self.heap_end() by {
            crate::align::law_align_up_is_least(free, align, a);
        }
        assert(block % align == 0);
    }

    /// The position that a request leaves is the one that its outcome tells.
    pub proof fn law_outcome_tells_the_position(
        self,
        position: int,
        layout: Layout,
        address: Option<usize>,
        after: int,
    )
        requires
            self.outcome(position, layout, address, after),
        ensures
            self.next_position(position, layout) == after,
            address is Some <==> self.fits(position, layout),
            address matches Some(address) ==> address == self.block(position, layout),
    {
    }

    /// A request that was served uses up no more than its block: from the end of
    /// the block on the heap is free, and any later request for which there is
    /// room there is served, at or before any aligned address that has the room.
    pub proof fn law_rest_stays_free(
        self,
        position: int,
        layout: Layout,
        address: usize,
        after: int,
        later: Layout,
        room: int,
        later_address: Option<usize>,
        later_after: int,
    )
        requires
            0 <= self.heap_start(),
            0 <= position,
            layout.align > 0,
            self.outcome(position, layout, Some(address), after),
            later.align > 0,
            later.size <= 262144,
            address + layout.size <= room,
            room % later.align as int == 0,
            room + later.size <= self.heap_end(),
            self.outcome(after, later, later_address, later_after),
        ensures
            self.frontier(after) == address + layout.size,
            self.fits(after, later),
            later_address matches Some(found) && address + layout.size <= found <= room,
    {
        broadcast use vstd::layout::layout_of_primitives;

        self.law_request_takes_its_block(position, layout, address, after);
        crate::align::law_align_up_is_least(self.frontier(after), later.align as int, room);
    }

    /// Whether the addresses of a request are addresses: the sum from which the
    /// start of the block is rounded down, and, unless the request is for more
    /// than 256 KiB, the end of the block.
    pub proof fn law_addressable_requests(self, position: int, layout: Layout, address: int)
        requires
            layout.align > 0,
            address % layout.align as int == 0,
            self.frontier(position) <= address < self.frontier(position) + layout.align,
        ensures
            self.block(position, layout) == address,
            self.addressable(position, layout) <==> {
                &&& self.frontier(position) + layout.align - 1 <= usize::MAX
                &&& layout.size <= 262144 ==> address + layout.size <= usize::MAX
            },
    {
        let free = self.frontier(position);
        crate::align::law_align_up_is_least(free, layout.align as int, address);
        lemma_aligned_in_reach_is_unique(
            free,
            layout.align as int,
            address,
            self.block(position, layout),
        );
    }

    /// The requests of a series are served in order: the first one from where the
    /// series starts, and each from the position that the one before it left.
    pub proof fn law_series_is_served_in_order(
        self,
        position: int,
        requests: Seq<Layout>,
        i: int,
        address: Option<usize>,
        after: int,
    )
        requires
            0 <= i < requests.len(),
            self.outcome(
                self.position_before(position, requests, i),
                requests[i],
                address,
                after,
            ),
        ensures
            self.position_before(position, requests, 0) == position,
            self.position_before(position, requests, i + 1) == after,
            self.position_after(position, requests) == self.position_before(
                position,
                requests,
                requests.len() as int,
            ),
    {
        assert(requests.take(0) =~= Seq::empty());
        assert(requests.take(i + 1).drop_last() =~= requests.take(i));
        assert(requests.take(i + 1).last() == requests[i]);
        assert(requests.take(requests.len() as int) =~= requests);
    }

    /// A request keeps the position within the heap and never moves it back.
    pub proof fn law_position_advances(self, position: int, layout: Layout)
        requires
            self.wf(),
            self.valid_position(position),
            layout.wf(),
        ensures
            self.valid_position(self.next_position(position, layout)),
            self.frontier(position) <= self.frontier(self.next_position(position, layout)),
    {
        crate::align::lemma_pow2_positive(layout.align as int);
        crate::align::law_align_up_is_least(
            self.frontier(position),
            layout.align as int,
            0,
        );
    }

    /// A block lies within the heap, after the word that holds the position; it
    /// is aligned as asked for, and less than one alignment is left unused in
    /// front of it.
    pub proof fn law_block_in_heap(self, position: int, layout: Layout)
        requires
            self.wf(),
            self.valid_position(position),
            layout.wf(),
            self.fits(position, layout),
        ensures
            self.heap_start() + word_size() <= self.block(position, layout),
            self.block(position, layout) + layout.size <= self.heap_end(),
            self.block(position, layout) % layout.align as int == 0,
            self.block(position, layout) < self.frontier(position) + layout.align,
    {
        crate::align::lemma_pow2_positive(layout.align as int);
        crate::align::law_align_up_is_least(
            self.frontier(position),
            layout.align as int,
            0,
        );
    }

    /// A request is refused only if it is for more than a heap can hold, or if no
    /// aligned address of the free part of the heap has room for the block.
    pub proof fn law_fits_wherever_there_is_room(
        self,
        position: int,
        layout: Layout,
        address: int,
    )
        requires
            layout.wf(),
            layout.size <= MAX_HEAP_LENGTH,
            self.frontier(position) <= address,
            address % layout.align as int == 0,
            address + layout.size <= self.heap_end(),
        ensures
            self.fits(position, layout),
    {
        crate::align::lemma_pow2_positive(layout.align as int);
        crate::align::law_align_up_is_least(
            self.frontier(position),
            layout.align as int,
            address,
        );
    }

    /// A series of requests keeps the position within the heap and never moves
    /// it back.
    pub proof fn law_positions_advance(self, position: int, requests: Seq<Layout>)
        requires
            self.wf(),
            self.valid_position(position),
            forall|k: int| 0 <= k < requests.len() ==> (#[trigger] requests[k]).wf(),
        ensures
            self.valid_position(self.position_after(position, requests)),
            self.frontier(position) <= self.frontier(self.position_after(position, requests)),
        decreases requests.len(),
    {
        if requests.len() > 0 {
            self.law_positions_advance(position, requests.drop_last());
            assert(requests.last() == requests[requests.len() - 1]);
            self.law_position_advances(
                self.position_after(position, requests.drop_last()),
                requests.last(),
            );
        }
    }

    /// The position never moves back between two requests of a series.
    proof fn lemma_position_before_mono(
        self,
        position: int,
        requests: Seq<Layout>,
        i: int,
        j: int,
    )
        requires
            self.wf(),
            self.valid_position(position),
            forall|k: int| 0 <= k < requests.len() ==> (#[trigger] requests[k]).wf(),
            0 <= i <= j <= requests.len(),
        ensures
            self.valid_position(self.position_before(position, requests, j)),
            self.frontier(self.position_before(position, requests, i)) <= self.frontier(
                self.position_before(position, requests, j),
            ),
        decreases j - i,
    {
        self.law_positions_advance(position, requests.take(j));
        if i < j {
            self.lemma_position_before_mono(position, requests, i, j - 1);
            assert(requests.take(j).drop_last() =~= requests.take(j - 1));
            self.law_positions_advance(position, requests.take(j - 1));
            self.law_position_advances(
                self.position_before(position, requests, j - 1),
                requests[j - 1],
            );
        }
    }

    /// No byte of the heap is handed out twice: of two requests of a series
    /// that were served, the later one's block lies after the earlier one's.
    pub proof fn law_blocks_disjoint(
        self,
        position: int,
        requests: Seq<Layout>,
        i: int,
        j: int,
    )
        requires
            self.wf(),
            self.valid_position(position),
            forall|k: int| 0 <= k < requests.len() ==> (#[trigger] requests[k]).wf(),
            0 <= i < j < requests.len(),
            self.fits(self.position_before(position, requests, i), requests[i]),
            self.fits(self.position_before(position, requests, j), requests[j]),
        ensures
            self.block(self.position_before(position, requests, i), requests[i])
                + requests[i].size <= self.block(
                self.position_before(position, requests, j),
                requests[j],
            ),
    {
        let before = self.position_before(position, requests, i);
        self.law_positions_advance(position, requests.take(i));
        self.law_block_in_heap(before, requests[i]);
        assert(requests.take(i + 1).drop_last() =~= requests.take(i));
        assert(self.position_before(position, requests, i + 1) == self.next_position(
            before,
            requests[i],
        ));
        self.lemma_position_before_mono(position, requests, i + 1, j);
        crate::align::lemma_pow2_positive(requests[j].align as int);
        crate::align::law_align_up_is_least(
            self.frontier(self.position_before(position, requests, j)),
            requests[j].align as int,
            0,
        );
    }

    /// As long as the free part of the heap is zero, a block is zero when it is
    /// handed out, and what is free after that is zero still.
    pub proof fn law_blocks_are_zeroed(
        self,
        position: int,
        layout: Layout,
        memory: spec_fn(int) -> u8,
    )
        requires
            self.wf(),
            self.valid_position(position),
            layout.wf(),
            self.fits(position, layout),
            forall|a: int|
                self.frontier(position) <= a < self.heap_end() ==> #[trigger] memory(a) == 0,
        ensures
            forall|a: int|
                self.block(position, layout) <= a < self.block(position, layout) + layout.size
                    ==> #[trigger] memory(a) == 0,
            forall|a: int|
                self.frontier(self.next_position(position, layout)) <= a < self.heap_end()
                    ==> #[trigger] memory(a) == 0,
    {
        self.law_position_advances(position, layout);
        crate::align::lemma_pow2_positive(layout.align as int);
        crate::align::law_align_up_is_least(
            self.frontier(position),
            layout.align as int,
            0,
        );
    }

    /// Whether the byte at address `a` belongs to a block that one of the first
    /// `n` requests of a series was given.
    pub open spec fn handed_out(
        self,
        position: int,
        requests: Seq<Layout>,
        n: int,
        a: int,
    ) -> bool {
        exists|k: int|
            #![trigger requests[k]]
            {
                let before = self.position_before(position, requests, k);
                &&& 0 <= k < n
                &&& self.fits(before, requests[k])
                &&& self.block(before, requests[k]) <= a < self.block(before, requests[k])
                    + requests[k].size
            }
    }

    /// What is free when request number `n` of a series is served has not been
    /// handed out before.
    proof fn lemma_free_is_not_handed_out(
        self,
        position: int,
        requests: Seq<Layout>,
        n: int,
        a: int,
    )
        requires
            self.wf(),
            self.valid_position(position),
            forall|k: int| 0 <= k < requests.len() ==> (#[trigger] requests[k]).wf(),
            0 <= n <= requests.len(),
            self.frontier(self.position_before(position, requests, n)) <= a,
        ensures
            !self.handed_out(position, requests, n, a),
            self.frontier(position) <= a,
    {
        assert(requests.take(0) =~= Seq::empty());
        self.lemma_position_before_mono(position, requests, 0, n);
        assert forall|k: int|
            0 <= k < n && self.fits(
                self.position_before(position, requests, k),
                #[trigger] requests[k],
            ) implies self.block(self.position_before(position, requests, k), requests[k])
            + requests[k].size <= a by {
            let before = self.position_before(position, requests, k);
            self.law_positions_advance(position, requests.take(k));
            self.law_block_in_heap(before, requests[k]);
            assert(requests.take(k + 1).drop_last() =~= requests.take(k));
            assert(requests.take(k + 1).last() == requests[k]);
            self.lemma_position_before_mono(position, requests, k + 1, n);
        }
    }

    /// While a series of requests is served, what is free stays zero.
    proof fn lemma_free_stays_zero(
        self,
        position: int,
        requests: Seq<Layout>,
        memory: spec_fn(int, int) -> u8,
        i: int,
    )
        requires
            self.wf(),
            self.valid_position(position),
            forall|k: int| 0 <= k < requests.len() ==> (#[trigger] requests[k]).wf(),
            forall|a: int|
                self.frontier(position) <= a < self.heap_end() ==> #[trigger] memory(0, a) == 0,
            forall|n: int, a: int|
                0 <= n < requests.len() && self.frontier(position) <= a && !self.handed_out(
                    position,
                    requests,
                    n + 1,
                    a,
                ) ==> #[trigger] memory(n + 1, a) == memory(n, a),
            0 <= i <= requests.len(),
        ensures
            forall|a: int|
                self.frontier(self.position_before(position, requests, i)) <= a < self.heap_end()
                    ==> #[trigger] memory(i, a) == 0,
        decreases i,
    {
        if i == 0 {
            assert(requests.take(0) =~= Seq::empty());
        } else {
            self.lemma_free_stays_zero(position, requests, memory, i - 1);
            self.lemma_position_before_mono(position, requests, i - 1, i);
            assert forall|a: int|
                self.frontier(self.position_before(position, requests, i)) <= a
                    < self.heap_end() implies #[trigger] memory(i, a) == 0 by {
                self.lemma_free_is_not_handed_out(position, requests, i, a);
                assert(memory((i - 1) + 1, a) == memory(i - 1, a));
            }
        }
    }

    /// Every block of a series of requests is zero when it is handed out, as long
    /// as the free part of the heap was zero at first and between two requests
    /// only the word with the position and blocks already handed out are written
    /// to. `memory(n, a)` is the byte at address `a` when request number `n` is
    /// served.
    pub proof fn law_every_block_is_zeroed(
        self,
        position: int,
        requests: Seq<Layout>,
        memory: spec_fn(int, int) -> u8,
        i: int,
    )
        requires
            self.wf(),
            self.valid_position(position),
            forall|k: int| 0 <= k < requests.len() ==> (#[trigger] requests[k]).wf(),
            forall|a: int|
                self.frontier(position) <= a < self.heap_end() ==> #[trigger] memory(0, a) == 0,
            forall|n: int, a: int|
                0 <= n < requests.len() && self.frontier(position) <= a && !self.handed_out(
                    position,
                    requests,
                    n + 1,
                    a,
                ) ==> #[trigger] memory(n + 1, a) == memory(n, a),
            0 <= i < requests.len(),
            self.fits(self.position_before(position, requests, i), requests[i]),
        ensures
            forall|a: int|
                self.block(self.position_before(position, requests, i), requests[i]) <= a
                    < self.block(self.position_before(position, requests, i), requests[i])
                    + requests[i].size ==> #[trigger] memory(i, a) == 0,
    {
        self.lemma_free_stays_zero(position, requests, memory, i);
        self.law_positions_advance(position, requests.take(i));
        self.law_blocks_are_zeroed(
            self.position_before(position, requests, i),
            requests[i],
            |a: int| memory(i, a),
        );
        assert forall|a: int|
            self.block(self.position_before(position, requests, i), requests[i]) <= a
                < self.block(self.position_before(position, requests, i), requests[i])
                + requests[i].size implies #[trigger] memory(i, a) == 0 by {
            let byte = |a: int| memory(i, a);
            assert(byte(a) == 0);
        }
    }

    /// Requests that agree end alike: of two allocators over the same heap, in
    /// the same state, each gives the other's answer and leaves the other's
    /// position, whether the memory was asked for zeroed or not.
    pub proof fn law_equal_requests_end_alike(
        self,
        other: BumpAllocator,
        position: int,
        layout: Layout,
        address: Option<usize>,
        after: int,
        other_address: Option<usize>,
        other_after: int,
    )
        requires
            self.heap_start() == other.heap_start(),
            self.heap_end() == other.heap_end(),
            self.outcome(position, layout, address, after),
            other.outcome(position, layout, other_address, other_after),
        ensures
            address == other_address,
            after == other_after,
    {
    }

    /// Every request to a heap in the lower half of the address space leads to
    /// addresses only, whatever its layout.
    pub proof fn law_requests_are_addressable(self, position: int, layout: Layout)
        requires
            self.wf(),
            self.valid_position(position),
            self.heap_end() <= isize::MAX,
            layout.wf(),
        ensures
            self.addressable(position, layout),
    {
        let align = layout.align as int;
        let half = isize::MAX + 1;
        crate::align::lemma_pow2_positive(align);
        crate::align::lemma_pow2_divides_half(layout.align);
        crate::align::law_align_up_is_least(self.frontier(position), align, half);
    }

    /// The allocator of the program heap is well formed, and every request to it
    /// leads to addresses only.
    pub proof fn law_program_heap_is_addressable(self, position: int, layout: Layout)
        requires
            self.heap_start() == HEAP_START_ADDRESS,
            self.heap_end() == HEAP_START_ADDRESS + MAX_HEAP_LENGTH,
            self.valid_position(position),
            layout.wf(),
        ensures
            self.wf(),
            self.addressable(position, layout),
    {
        broadcast use vstd::layout::layout_of_primitives;

        assert(self.heap_end() <= usize::MAX);
        assert(word_size() == 8);
        self.law_requests_are_addressable(position, layout);
    }
}

/// Less than one alignment above an address there is only one multiple of the
/// alignment.
proof fn lemma_aligned_in_reach_is_unique(address: int, align: int, one: int, other: int)
    requires
        0 < align,
        one % align == 0,
        other % align == 0,
        address <= one < address + align,
        address <= other < address + align,
    ensures
        one == other,
{
    vstd::arithmetic::div_mod::lemma_fundamental_div_mod(one, align);
    vstd::arithmetic::div_mod::lemma_fundamental_div_mod(other, align);
    let p = one / align;
    let q = other / align;
    assert(p == q) by (nonlinear_arith)
        requires
            0 < align,
            -align < align * p - align * q < align,
    ;
}

/// The addresses of the program heap: at most the 256 KiB from 0x300000000 on,
/// and the first 32 KiB of them by the deprecated length.
pub proof fn law_program_heap_addresses(address: int)
    ensures
        HEAP_START_ADDRESS <= address < HEAP_START_ADDRESS + MAX_HEAP_LENGTH <==> 0x3_0000_0000
            <= address < 0x3_0004_0000,
        HEAP_START_ADDRESS <= address < HEAP_START_ADDRESS + HEAP_LENGTH <==> 0x3_0000_0000
            <= address < 0x3_0000_8000,
{
}

/// An allocator that does not allocate memory.
#[derive(Clone, Copy, Debug)]
pub struct NoAllocator;

/// The address of a `T` at `offset` bytes into the heap, for programs that
/// place their values themselves.
pub fn calculate_offset<T: Sized>(offset: u64) -> (address: u64)
    requires
        offset + vstd::layout::size_of::<T>() <= MAX_HEAP_LENGTH,
        (HEAP_START_ADDRESS + offset) % vstd::layout::align_of::<T>() as int == 0,
    ensures
        address == HEAP_START_ADDRESS + offset,
        address == 0x3_0000_0000 + offset,
{
    HEAP_START_ADDRESS + offset
}

} // verus!
