use pinocchio::allocator::{
    calculate_offset, BumpAllocator, Layout, NoAllocator, HEAP_LENGTH, HEAP_START_ADDRESS,
    MAX_HEAP_LENGTH,
};

/// The address of the heap used for testing.
const HEAP: usize = HEAP_START_ADDRESS as usize;

/// The size of the word with the position.
const WORD: usize = size_of::<usize>();

fn layout(size: usize, align: usize) -> Layout {
    Layout::from_size_align(size, align).unwrap()
}

#[test]
fn test_bump_allocator() {
    // alloc the entire
    {
        let mut position = 0;
        let allocator = BumpAllocator::new_unchecked(HEAP, 128);

        for i in 0..128 - WORD {
            let address = allocator.allocate(&mut position, layout(1, size_of::<u8>()));
            assert_eq!(address, Some(HEAP + WORD + i));
        }
        assert_eq!(
            None,
            allocator.allocate(&mut position, layout(1, size_of::<u8>()))
        );
    }
    // check alignment
    {
        let mut position = 0;
        let allocator = BumpAllocator::new_unchecked(HEAP, 128);
        let mut address_for = |align: usize| {
            allocator
                .allocate(&mut position, layout(1, align))
                .unwrap()
        };
        assert_eq!(0, address_for(size_of::<u8>()) % size_of::<u8>());
        assert_eq!(0, address_for(size_of::<u16>()) % size_of::<u16>());
        assert_eq!(0, address_for(size_of::<u32>()) % size_of::<u32>());
        assert_eq!(0, address_for(size_of::<u64>()) % size_of::<u64>());
        assert_eq!(0, address_for(size_of::<u128>()) % size_of::<u128>());
        assert_eq!(0, address_for(64) % 64);
    }
    // alloc entire block (minus the pos ptr)
    {
        let mut position = 0;
        let allocator = BumpAllocator::new_unchecked(HEAP, 128);
        let address = allocator.allocate(
            &mut position,
            layout(128 - size_of::<usize>(), size_of::<u8>()),
        );
        assert_ne!(address, None);
        assert_eq!(0, address.unwrap() % size_of::<u64>());
    }
}

#[test]
fn blocks_start_at_the_least_aligned_address() {
    let mut position = 0;
    let allocator = BumpAllocator::new_unchecked(HEAP, 1024);
    assert_eq!(allocator.allocate(&mut position, layout(3, 1)), Some(HEAP + WORD));
    assert_eq!(position, HEAP + WORD + 3);
    assert_eq!(
        allocator.allocate(&mut position, layout(5, 16)),
        Some(HEAP + 16)
    );
    assert_eq!(position, HEAP + 21);
    assert_eq!(
        allocator.allocate(&mut position, layout(64, 256)),
        Some(HEAP + 256)
    );
    assert_eq!(position, HEAP + 320);
}

#[test]
fn blocks_do_not_overlap() {
    let mut position = 0;
    let allocator = BumpAllocator::new_unchecked(HEAP, 4096);
    let mut end = HEAP + WORD;
    for (size, align) in [(1, 1), (7, 2), (0, 8), (100, 64), (33, 32), (1, 1)] {
        let address = allocator
            .allocate(&mut position, layout(size, align))
            .unwrap();
        assert!(end <= address);
        assert!(address < end + align);
        end = address + size;
        assert!(end <= HEAP + 4096);
        assert_eq!(position, end);
    }
}

#[test]
fn a_refused_request_leaves_the_heap_alone() {
    let mut position = 0;
    let allocator = BumpAllocator::new_unchecked(HEAP, 128);
    assert_eq!(allocator.allocate(&mut position, layout(121, 1)), None);
    assert_eq!(position, 0);
    assert_eq!(
        allocator.allocate(&mut position, layout(100, 1)),
        Some(HEAP + WORD)
    );
    assert_eq!(allocator.allocate(&mut position, layout(21, 1)), None);
    assert_eq!(position, HEAP + WORD + 100);
    assert_eq!(
        allocator.allocate(&mut position, layout(20, 1)),
        Some(HEAP + WORD + 100)
    );
}

#[test]
fn no_block_is_larger_than_the_largest_heap() {
    let mut position = 0;
    let allocator = BumpAllocator::new_unchecked(HEAP, 2 * MAX_HEAP_LENGTH as usize);
    let largest = MAX_HEAP_LENGTH as usize;
    assert_eq!(allocator.allocate(&mut position, layout(largest + 1, 1)), None);
    assert_eq!(
        allocator.allocate(&mut position, layout(largest, 1)),
        Some(HEAP + WORD)
    );
}

#[test]
fn any_layout_can_be_asked_of_the_program_heap() {
    let mut position = 0;
    let allocator = BumpAllocator::new_unchecked(HEAP, MAX_HEAP_LENGTH as usize);
    assert_eq!(allocator.allocate(&mut position, layout(1, 1 << 62)), None);
    assert_eq!(
        allocator.allocate(&mut position, layout(isize::MAX as usize, 1)),
        None
    );
    assert_eq!(position, 0);
}

#[test]
fn zeroed_blocks_are_blocks() {
    let mut position = 0;
    let mut other = 0;
    let allocator = BumpAllocator::new_unchecked(HEAP, 128);
    for (size, align) in [(5, 1), (5, 4), (64, 32), (64, 32)] {
        assert_eq!(
            allocator.alloc_zeroed(&mut position, layout(size, align)),
            allocator.allocate(&mut other, layout(size, align))
        );
        assert_eq!(position, other);
    }
}

#[test]
fn every_block_is_zero_when_it_is_handed_out() {
    let mut position = 0;
    let allocator = BumpAllocator::new_unchecked(HEAP, 256);
    let mut memory = [0u8; 256];
    for (size, align) in [(5, 1), (16, 8), (1, 64), (30, 2), (40, 4)] {
        let address = allocator
            .alloc_zeroed(&mut position, layout(size, align))
            .unwrap();
        let block = &mut memory[address - HEAP..address - HEAP + size];
        assert!(block.iter().all(|byte| *byte == 0));
        block.fill(0xAA);
    }
}

#[test]
fn freeing_gives_nothing_back() {
    let mut position = 0;
    let allocator = BumpAllocator::new_unchecked(HEAP, 128);
    let block = layout(100, 1);
    let address = allocator.allocate(&mut position, block).unwrap();
    allocator.dealloc(&mut position, address, block);
    assert_eq!(position, address + 100);
    assert_eq!(allocator.allocate(&mut position, block), None);
}

#[test]
fn layouts_are_checked() {
    assert_eq!(
        Layout::from_size_align(10, 8),
        Some(Layout { size: 10, align: 8 })
    );
    for size in [0, 1, 4095, isize::MAX as usize - 7, isize::MAX as usize, usize::MAX] {
        for align in [0, 1, 2, 3, 6, 8, 4096, 1 << 62, 1 << 63, usize::MAX] {
            assert_eq!(
                Layout::from_size_align(size, align).is_some(),
                std::alloc::Layout::from_size_align(size, align).is_ok()
            );
        }
    }
}

#[test]
fn values_are_placed_at_their_offsets() {
    assert_eq!(calculate_offset::<u64>(0), 0x3_0000_0000);
    assert_eq!(calculate_offset::<u8>(5), 0x3_0000_0005);
    assert_eq!(
        calculate_offset::<u64>(MAX_HEAP_LENGTH as u64 - 8),
        0x3_0003_FFF8
    );
}

#[test]
fn heap_lengths() {
    assert_eq!(HEAP_LENGTH, 32_768);
    assert_eq!(MAX_HEAP_LENGTH, 262_144);
    assert_eq!(size_of::<NoAllocator>(), 0);
}
