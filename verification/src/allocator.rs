pub mod fallback;
pub mod fixed_size;

use vstd::prelude::*;

verus! {

/// Size of the kernel heap in bytes.
pub const HEAP_SIZE: usize = 100 * 1024;

/// An allocator that owns no memory: every request fails.
pub struct DummyAllocator;

impl DummyAllocator {
    /// Always reports exhaustion.
    pub fn allocate(&self, _size: usize, _align: usize) -> (r: Option<usize>)
        ensures
            r is None,
    {
        None
    }
}

} // verus!
