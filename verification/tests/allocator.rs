use wasabi::allocator::{bump, Allocator};
use wasabi::error::Error;

fn heap() -> Allocator {
    let mut heap = Allocator::new();
    assert!(heap.add_region(0x10_0000, 0x20_0000));
    heap
}

#[test]
fn malloc_align_test() {
    let mut heap = heap();
    for align in [1usize, 2, 4, 8, 16, 32, 64, 4096] {
        for _ in 0..10 {
            let p = heap.alloc_with_options(128, align).expect("allocation succeeds");
            assert!(p as usize % align == 0, "Pointer not aligned: {:#x}", p);
        }
    }
}

#[test]
fn malloc_dealloc_test() {
    let mut heap = heap();
    let ptr = heap.alloc_with_options(256, 16).expect("malloc_dealloc_test: allocation failed");
    assert!(heap.dealloc(ptr, 256, 16));
}

#[test]
fn blocks_do_not_overlap() {
    let mut heap = heap();
    let sizes = [1usize, 100, 4096, 17, 64, 5000, 8, 300];
    let mut blocks: Vec<(u64, usize)> = Vec::new();
    for (i, size) in sizes.iter().enumerate() {
        let p = heap.alloc_with_options(*size, 1 << (i % 5)).unwrap();
        for (q, other) in &blocks {
            assert!(p + *size as u64 <= *q || *q + *other as u64 <= p);
        }
        assert!(p >= 0x10_0000 && p + *size as u64 <= 0x20_0000);
        blocks.push((p, *size));
    }
    assert_eq!(heap.live_blocks(), sizes.len());
}

#[test]
fn first_blocks_come_from_the_start_of_the_region() {
    let mut heap = heap();
    assert_eq!(heap.alloc_with_options(16, 16), Ok(0x10_0000));
    assert_eq!(heap.alloc_with_options(16, 16), Ok(0x10_0010));
    // a page is aligned to a page
    assert_eq!(heap.alloc_with_options(4096, 4096), Ok(0x10_1000));
    // a request is served by the class of its size or alignment, whichever is larger
    assert_eq!(heap.alloc_with_options(3, 64), Ok(0x10_2000));
    assert_eq!(heap.alloc_with_options(65, 1), Ok(0x10_2080));
}

#[test]
fn released_block_is_handed_out_again() {
    let mut heap = heap();
    let a = heap.alloc_with_options(100, 8).unwrap();
    let b = heap.alloc_with_options(100, 8).unwrap();
    assert_ne!(a, b);
    assert!(heap.dealloc(a, 100, 8));
    assert_eq!(heap.alloc_with_options(100, 8), Ok(a));
    // last released, first handed out
    assert!(heap.dealloc(a, 100, 8));
    assert!(heap.dealloc(b, 100, 8));
    assert_eq!(heap.alloc_with_options(128, 1), Ok(b));
    assert_eq!(heap.alloc_with_options(128, 1), Ok(a));
}

#[test]
fn release_of_what_is_not_live_is_refused() {
    let mut heap = heap();
    let a = heap.alloc_with_options(100, 8).unwrap();
    assert!(!heap.dealloc(a + 8, 100, 8));
    assert!(!heap.dealloc(a, 1000, 8));
    assert!(!heap.dealloc(a, 100, 3));
    assert!(heap.dealloc(a, 100, 8));
    assert!(!heap.dealloc(a, 100, 8));
    assert_eq!(heap.live_blocks(), 0);
}

#[test]
fn bad_alignment_and_exhaustion() {
    let mut heap = heap();
    assert_eq!(heap.alloc_with_options(16, 0), Err(Error::Misaligned));
    assert_eq!(heap.alloc_with_options(16, 3), Err(Error::Misaligned));
    assert_eq!(heap.alloc_with_options(16, 48), Err(Error::Misaligned));
    assert_eq!(heap.alloc_with_options(0x20_0000, 1), Err(Error::OutOfMemory));
    assert_eq!(heap.alloc_with_options(usize::MAX, 1), Err(Error::OutOfMemory));
    assert_eq!(heap.alloc_with_options(0x10_0000, 1), Ok(0x10_0000));
    assert_eq!(heap.alloc_with_options(1, 1), Err(Error::OutOfMemory));
    assert_eq!(Allocator::new().alloc_with_options(1, 1), Err(Error::OutOfMemory));
}

#[test]
fn zero_size_gets_a_block_of_the_alignment() {
    let mut heap = heap();
    assert_eq!(heap.alloc_with_options(0, 1), Ok(0x10_0000));
    assert_eq!(heap.alloc_with_options(0, 32), Ok(0x10_0020));
}

#[test]
fn regions_are_tried_largest_first() {
    let mut heap = Allocator::new();
    assert!(heap.add_region(0x1000, 0x2000));
    assert!(heap.add_region(0x10_0000, 0x20_0000));
    assert!(heap.add_region(0x5000, 0x6000));
    // at address 0, empty, and overlapping a region that was taken
    assert!(!heap.add_region(0, 0x800));
    assert!(!heap.add_region(0x3000, 0x3000));
    assert!(!heap.add_region(0x4000, 0x3000));
    assert!(!heap.add_region(0x1800, 0x2800));
    assert!(!heap.add_region(0x0, 0x1_0000_0000));
    assert_eq!(heap.alloc_with_options(0x1000, 1), Ok(0x10_0000));
    // too large for the small regions
    assert_eq!(heap.alloc_with_options(0x2000, 1), Ok(0x10_2000));
    // aligning the block uses up the rest of the large region
    assert_eq!(heap.alloc_with_options(0x8_0000, 1), Ok(0x18_0000));
    assert_eq!(heap.alloc_with_options(0x4_0000, 1), Err(Error::OutOfMemory));
    // of the two small regions the one that was added first comes first
    assert_eq!(heap.alloc_with_options(0x1000, 1), Ok(0x1000));
    assert_eq!(heap.alloc_with_options(0x1000, 1), Ok(0x5000));
    assert_eq!(heap.alloc_with_options(0x1000, 1), Err(Error::OutOfMemory));
}

#[test]
fn arena_hands_out_blocks_front_to_back() {
    // an arena of 100 bytes at 0x1000
    assert_eq!(bump(0x1000, 0, 100, 10, 1), Some((0x1000, 10)));
    assert_eq!(bump(0x1000, 10, 100, 10, 8), Some((0x1010, 26)));
    assert_eq!(bump(0x1000, 26, 100, 74, 1), Some((0x101a, 100)));
    assert_eq!(bump(0x1000, 26, 100, 75, 1), None);
    assert_eq!(bump(0x1000, 100, 100, 0, 1), Some((0x1064, 100)));
    assert_eq!(bump(0x1000, 100, 100, 1, 1), None);
    assert_eq!(bump(0x1000, 97, 100, 1, 4), None);
    assert_eq!(bump(0x1000, 101, 100, 0, 1), None);
    assert_eq!(bump(0x1000, 0, 100, 1, 0), None);
    assert_eq!(bump(0x1001, 0, 100, 4, 3), Some((0x1002, 5)));
    assert_eq!(bump(usize::MAX - 10, 0, 100, 1, 1), None);
    assert_eq!(bump(usize::MAX - 100, 0, 100, 100, 1), Some((usize::MAX - 100, 100)));
}

#[test]
fn no_block_lies_at_address_zero() {
    let mut heap = Allocator::new();
    assert!(!heap.add_region(0, 0x10_0000));
    assert_eq!(heap.alloc_with_options(128, 16), Err(Error::OutOfMemory));
    assert!(heap.add_region(0x1000, 0x10_0000));
    let mut blocks: Vec<u64> = Vec::new();
    for align in [1usize, 2, 4, 8, 16, 32, 64, 4096] {
        for _ in 0..10 {
            let p = heap.alloc_with_options(128, align).unwrap();
            assert_ne!(p, 0);
            assert!(p as usize % align == 0);
            for q in &blocks {
                assert!(p + 128 <= *q || *q + 128 <= p);
            }
            blocks.push(p);
        }
    }
    assert_eq!(blocks.len(), 80);
    assert_eq!(heap.live_blocks(), 80);
}
