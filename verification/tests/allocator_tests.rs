use floof::allocator::fixed_size::{list_index, FixedSizeBlockAllocator};
use floof::allocator::DummyAllocator;

const HEAP_START: usize = 0x1000;
const HEAP_SIZE: usize = 100 * 1024;

fn fresh_heap() -> FixedSizeBlockAllocator {
    let mut a = FixedSizeBlockAllocator::new();
    a.init(HEAP_START, HEAP_SIZE);
    a
}

#[test]
fn list_index_picks_smallest_sufficient_class() {
    assert_eq!(list_index(1, 1), Some(0));
    assert_eq!(list_index(16, 1), Some(0));
    assert_eq!(list_index(17, 1), Some(1));
    assert_eq!(list_index(100, 1), Some(3));
    assert_eq!(list_index(2048, 1), Some(7));
    assert_eq!(list_index(2049, 1), None);
    // alignment can drive the class up
    assert_eq!(list_index(8, 64), Some(2));
    assert_eq!(list_index(8, 4096), None);
}

#[test]
fn simple_allocation() {
    let mut heap = fresh_heap();
    // an empty class replenishes itself with exactly one block per request,
    // so consecutive small allocations are carved back to back
    let x = heap.allocate(8, 8).expect("allocation failed");
    let y = heap.allocate(8, 8).expect("allocation failed");
    assert_eq!(x, HEAP_START);
    assert_eq!(y, HEAP_START + 16);
    heap.deallocate(x, 8, 8);
    heap.deallocate(y, 8, 8);
}

/// Simultaneously live allocations can fill nearly the whole heap, and all
/// of them are distinct blocks.
#[test]
fn allocations_fill_the_heap() {
    let mut heap = fresh_heap();
    let count = HEAP_SIZE / 16 - 16;
    let mut addrs: Vec<usize> = Vec::new();
    for _ in 0..count {
        addrs.push(heap.allocate(16, 8).expect("allocation failed"));
    }
    addrs.sort_unstable();
    for pair in addrs.windows(2) {
        assert!(pair[0] + 16 <= pair[1], "blocks overlap");
    }
}

/// Simulated memory: since no two live allocations overlap, a value written
/// through one allocation survives every other allocation's writes.
#[test]
fn many_boxes_hold_their_values() {
    let mut heap = fresh_heap();
    let mut memory = vec![0u8; HEAP_START + HEAP_SIZE];
    for i in 0..1000u64 {
        let addr = heap.allocate(8, 8).expect("allocation failed");
        memory[addr..addr + 8].copy_from_slice(&i.to_le_bytes());
        let read = u64::from_le_bytes(memory[addr..addr + 8].try_into().unwrap());
        assert_eq!(read, i);
        heap.deallocate(addr, 8, 8);
    }
}

/// A long-lived allocation keeps its value across many short-lived ones
/// allocated and freed after it, and allocations totalling about the heap
/// size all succeed.
#[test]
fn long_lived_allocation_survives_churn() {
    let mut heap = fresh_heap();
    let mut memory = vec![0u8; HEAP_START + HEAP_SIZE];
    let long_lived = heap.allocate(8, 8).expect("allocation failed");
    memory[long_lived..long_lived + 8].copy_from_slice(&1u64.to_le_bytes());
    for i in 0..(HEAP_SIZE as u64 / 16) {
        let addr = heap.allocate(8, 8).expect("allocation failed");
        memory[addr..addr + 8].copy_from_slice(&i.to_le_bytes());
        let read = u64::from_le_bytes(memory[addr..addr + 8].try_into().unwrap());
        assert_eq!(read, i);
        heap.deallocate(addr, 8, 8);
    }
    let read = u64::from_le_bytes(memory[long_lived..long_lived + 8].try_into().unwrap());
    assert_eq!(read, 1);
}

/// No two simultaneously live allocations overlap, across classes and the
/// fallback path.
#[test]
fn live_allocations_never_overlap() {
    let mut heap = fresh_heap();
    let mut live: Vec<(usize, usize)> = Vec::new();
    let requests: [(usize, usize); 8] = [
        (8, 8),
        (16, 16),
        (40, 8),
        (100, 64),
        (512, 512),
        (3000, 8),
        (24, 4),
        (2048, 2048),
    ];
    for &(size, align) in requests.iter() {
        let addr = heap.allocate(size, align).expect("allocation failed");
        assert_eq!(addr % align, 0, "misaligned allocation");
        let required = size.max(align);
        let reserved = if required <= 2048 {
            required.next_power_of_two().max(16)
        } else {
            size
        };
        for &(a2, s2) in live.iter() {
            assert!(addr + reserved <= a2 || a2 + s2 <= addr, "overlap");
        }
        live.push((addr, reserved));
    }
}

/// The most recently freed block of a class is the first one reused by the
/// next request that class serves.
#[test]
fn last_freed_block_is_reused_first() {
    let mut heap = fresh_heap();
    let a = heap.allocate(16, 8).expect("allocation failed");
    let b = heap.allocate(16, 8).expect("allocation failed");
    heap.deallocate(a, 16, 8);
    heap.deallocate(b, 16, 8);
    // b was freed last, so a same-class request gets b back first, then a
    let c = heap.allocate(10, 2).expect("allocation failed");
    assert_eq!(c, b);
    let d = heap.allocate(10, 2).expect("allocation failed");
    assert_eq!(d, a);
}

/// A request beyond the largest class never touches the class free lists:
/// it is carved from, and returned to, the fallback region alone.
#[test]
fn oversize_requests_use_fallback_exclusively() {
    let mut heap = fresh_heap();
    // populate one class list with a freed block
    let small = heap.allocate(8, 8).expect("allocation failed");
    heap.deallocate(small, 8, 8);
    let before: Vec<usize> = heap.list_heads.iter().map(|l| l.len()).collect();
    let big = heap.allocate(4096, 8).expect("allocation failed");
    let after: Vec<usize> = heap.list_heads.iter().map(|l| l.len()).collect();
    assert_eq!(before, after, "class lists must be untouched");
    heap.deallocate(big, 4096, 8);
    let after_free: Vec<usize> = heap.list_heads.iter().map(|l| l.len()).collect();
    assert_eq!(before, after_free, "class lists must be untouched");
}

/// Freed fallback ranges coalesce with their neighbours, so a later request
/// spanning both succeeds at the same place.
#[test]
fn fallback_coalesces_adjacent_spans() {
    let mut heap = fresh_heap();
    let a = heap.allocate(3000, 1).expect("allocation failed");
    let b = heap.allocate(3000, 1).expect("allocation failed");
    assert_eq!(b, a + 3000);
    heap.deallocate(a, 3000, 1);
    heap.deallocate(b, 3000, 1);
    let c = heap.allocate(6000, 1).expect("allocation failed");
    assert_eq!(c, a);
}

/// Exhaustion is reported as `None`, the allocator's only failure, and the
/// allocator is left unchanged by the failing request.
#[test]
fn exhaustion_returns_none() {
    let mut heap = FixedSizeBlockAllocator::new();
    heap.init(0, 64);
    assert_eq!(heap.allocate(2049, 1), None);
    assert_eq!(heap.allocate(128, 1), None);
    let a = heap.allocate(16, 16).expect("allocation failed");
    let _b = heap.allocate(16, 16).expect("allocation failed");
    assert_eq!(heap.allocate(64, 64), None);
    heap.deallocate(a, 16, 16);
    // the freed block serves the next same-class request again
    assert_eq!(heap.allocate(16, 16), Some(a));
}

/// An allocator that owns no memory refuses every request.
#[test]
fn dummy_allocator_always_fails() {
    let d = DummyAllocator;
    assert_eq!(d.allocate(8, 8), None);
    assert_eq!(d.allocate(1, 1), None);
}

/// Alignment padding inside the fallback region: the returned address is
/// aligned even when the region base is not.
#[test]
fn fallback_respects_alignment() {
    let mut heap = FixedSizeBlockAllocator::new();
    heap.init(1000, 10000);
    let a = heap.allocate(4000, 64).expect("allocation failed");
    assert_eq!(a % 64, 0);
    assert_eq!(a, 1024);
}
