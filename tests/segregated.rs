use rust_os::block::AllocError;
use rust_os::heap::KernelHeap;
use rust_os::segregated::{SegregatedFreeListAllocator, class_block_size, class_for, NUM_CLASSES};

const START: usize = 0x10_0000;

fn heap_of(size: usize) -> SegregatedFreeListAllocator {
    let mut heap = SegregatedFreeListAllocator::new();
    heap.init(START, size);
    heap
}

#[test]
fn small_request_comes_from_the_eight_byte_class() {
    let mut heap = heap_of(4096);
    assert_eq!(class_for(7, 1), 0);
    let a = heap.allocate(7, 1).unwrap();
    assert_eq!(a, START);
    assert_eq!(a % 8, 0);
    heap.deallocate(a, 7, 1);
    // any request of the same class takes the freed block back
    assert_eq!(heap.allocate(5, 2), Ok(a));
}

#[test]
fn large_request_goes_to_the_fallback() {
    assert_eq!(class_for(3000, 8), NUM_CLASSES);
    let mut heap = heap_of(4096);
    let a = heap.allocate(3000, 8).unwrap();
    assert!(a >= START && a + 3000 <= START + 4096);
    assert_eq!(a % 8, 0);
}

#[test]
fn large_request_fails_without_enough_contiguous_bytes() {
    let mut heap = heap_of(4096);
    let a = heap.allocate(2048, 8).unwrap();
    assert_eq!(a, START);
    assert_eq!(heap.allocate(3000, 8), Err(AllocError::OutOfMemory));
    heap.deallocate(a, 2048, 8);
    // the freed block sits in its class list, not in the fallback
    assert_eq!(heap.allocate(3000, 8), Err(AllocError::OutOfMemory));
    assert_eq!(heap.allocate(2000, 1), Ok(a));
}

#[test]
fn free_then_allocate_in_a_class_reuses_the_block() {
    let mut heap = heap_of(4096);
    let a = heap.allocate(100, 8).unwrap();
    let b = heap.allocate(100, 8).unwrap();
    assert_ne!(a, b);
    heap.deallocate(a, 100, 8);
    assert_eq!(heap.allocate(100, 8), Ok(a));
    heap.deallocate(b, 100, 8);
    heap.deallocate(a, 100, 8);
    // the list's head is the block freed last
    assert_eq!(heap.allocate(100, 8), Ok(a));
    assert_eq!(heap.allocate(100, 8), Ok(b));
}

#[test]
fn allocate_before_init_fails_deterministically() {
    let mut heap = SegregatedFreeListAllocator::new();
    assert_eq!(heap.allocate(8, 8), Err(AllocError::OutOfMemory));
    assert_eq!(heap.allocate(5000, 8), Err(AllocError::OutOfMemory));
    let mut kernel = KernelHeap::new();
    assert_eq!(kernel.allocate(8, 8), Err(AllocError::Uninitialized));
    assert_eq!(kernel.allocate(8, 8), Err(AllocError::Uninitialized));
}

#[test]
fn oversized_request_fails_with_out_of_memory() {
    let mut heap = heap_of(1024);
    assert_eq!(heap.allocate(1025, 1), Err(AllocError::OutOfMemory));
    assert_eq!(heap.allocate(2048, 8), Err(AllocError::OutOfMemory));
    assert_eq!(heap.allocate(usize::MAX, 8), Err(AllocError::OutOfMemory));
    let mut kernel = KernelHeap::new();
    kernel.init(START, 1024);
    assert_eq!(kernel.allocate(100 * 1024, 8), Err(AllocError::OutOfMemory));
}

#[test]
fn live_allocations_are_aligned_in_region_and_apart() {
    let mut heap = heap_of(8192);
    let requests: [(usize, usize); 8] =
        [(7, 1), (8, 8), (33, 16), (200, 64), (3000, 8), (1, 1), (2048, 2048), (64, 32)];
    let mut got: Vec<(usize, usize)> = Vec::new();
    for (s, al) in requests {
        let a = heap.allocate(s, al).unwrap();
        assert!(a >= START && a + s <= START + 8192);
        assert_eq!(a % al, 0);
        got.push((a, s));
    }
    for i in 0..got.len() {
        for j in 0..got.len() {
            if i != j {
                let (a, n) = got[i];
                let (b, m) = got[j];
                assert!(a + n <= b || b + m <= a);
            }
        }
    }
}

#[test]
fn kernel_heap_serves_after_init() {
    let mut kernel = KernelHeap::new();
    kernel.init(START, 100 * 1024);
    let a = kernel.allocate(4, 4).unwrap();
    assert_eq!(a, START);
    kernel.deallocate(a, 4, 4);
    assert_eq!(kernel.allocate(3, 1), Ok(a));
}

#[test]
fn class_sizes_double_from_eight() {
    assert_eq!(class_block_size(0), 8);
    assert_eq!(class_block_size(4), 128);
    assert_eq!(class_block_size(8), 2048);
    assert_eq!(class_for(8, 16), 1);
    assert_eq!(class_for(2048, 1), 8);
    assert_eq!(class_for(2049, 1), NUM_CLASSES);
    assert_eq!(class_for(8, 4096), NUM_CLASSES);
    assert_eq!(class_for(0, 1), 0);
}
