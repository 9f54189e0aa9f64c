use rust_os::block::{AllocError, checked_align_up};
use rust_os::free_list::{FreeListAllocator, checked_adjusted_size};

#[test]
fn three_forty_byte_blocks_do_not_fit_in_a_hundred_bytes() {
    let mut heap = FreeListAllocator::new();
    heap.init(0x1000, 100);
    assert_eq!(heap.allocate(40, 8), Ok(0x1000));
    assert_eq!(heap.allocate(40, 8), Ok(0x1028));
    assert_eq!(heap.allocate(40, 8), Err(AllocError::OutOfMemory));
}

#[test]
fn free_then_allocate_returns_the_same_address() {
    let mut heap = FreeListAllocator::new();
    heap.init(0x2000, 1024);
    let first = heap.allocate(10, 1).unwrap();
    heap.deallocate(first, 10, 1);
    let second = heap.allocate(10, 1).unwrap();
    assert_eq!(first, second);
    assert_eq!(second, 0x2000);
}

#[test]
fn allocate_before_init_fails() {
    let mut heap = FreeListAllocator::new();
    assert_eq!(heap.allocate(8, 8), Err(AllocError::OutOfMemory));
    assert_eq!(heap.allocate(0, 1), Err(AllocError::OutOfMemory));
}

#[test]
fn request_larger_than_region_fails() {
    let mut heap = FreeListAllocator::new();
    heap.init(0x3000, 1024);
    assert_eq!(heap.allocate(1025, 1), Err(AllocError::OutOfMemory));
    assert_eq!(heap.allocate(usize::MAX, 1), Err(AllocError::OutOfMemory));
    // nothing was taken: the whole region is still there
    assert_eq!(heap.allocate(1024, 1), Ok(0x3000));
}

#[test]
fn aligned_request_skips_padding() {
    let mut heap = FreeListAllocator::new();
    heap.init(0x1008, 256);
    let a = heap.allocate(16, 64).unwrap();
    assert_eq!(a, 0x1040);
    assert_eq!(a % 64, 0);
    // the trailing remainder was put back at the head
    assert_eq!(heap.allocate(16, 8), Ok(0x1050));
}

#[test]
fn addresses_lie_in_region_and_are_aligned() {
    let mut heap = FreeListAllocator::new();
    let start: usize = 0x10_0000;
    let size: usize = 4096;
    heap.init(start, size);
    let requests: [(usize, usize); 6] = [(1, 1), (24, 8), (100, 32), (7, 16), (300, 128), (33, 4)];
    let mut got: Vec<(usize, usize)> = Vec::new();
    for (s, al) in requests {
        let a = heap.allocate(s, al).unwrap();
        assert!(a >= start && a + s <= start + size);
        assert_eq!(a % al, 0);
        got.push((a, s));
    }
    for i in 0..got.len() {
        for j in 0..got.len() {
            if i != j {
                let (a, n) = got[i];
                let (b, m) = got[j];
                assert!(a + n <= b || b + m <= a);
            }
        }
    }
}

#[test]
fn freed_block_is_reused_first_without_coalescing() {
    let mut heap = FreeListAllocator::new();
    heap.init(0x4000, 64);
    let a = heap.allocate(16, 8).unwrap();
    let b = heap.allocate(16, 8).unwrap();
    assert_eq!((a, b), (0x4000, 0x4010));
    heap.deallocate(a, 16, 8);
    heap.deallocate(b, 16, 8);
    // two adjacent 16-byte nodes stay apart: 32 bytes cannot come from them
    assert_eq!(heap.allocate(32, 8), Ok(0x4020));
    assert_eq!(heap.allocate(32, 8), Err(AllocError::OutOfMemory));
    assert_eq!(heap.allocate(16, 8), Ok(0x4010));
}

#[test]
fn small_requests_take_a_whole_node() {
    assert_eq!(checked_adjusted_size(0), Some(16));
    assert_eq!(checked_adjusted_size(1), Some(16));
    assert_eq!(checked_adjusted_size(17), Some(24));
    assert_eq!(checked_adjusted_size(40), Some(40));
    assert_eq!(checked_adjusted_size(usize::MAX), None);
}

#[test]
fn align_up_rounds_to_the_next_multiple() {
    assert_eq!(checked_align_up(13, 8), Some(16));
    assert_eq!(checked_align_up(16, 8), Some(16));
    assert_eq!(checked_align_up(0, 4096), Some(0));
    assert_eq!(checked_align_up(10, 3), Some(12));
    assert_eq!(checked_align_up(usize::MAX, 16), None);
}
