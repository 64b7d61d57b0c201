use vstd::prelude::*;
use crate::allocator::fallback::{carve_result, dealloc_result, first_fit, first_fit_index, pad_for, FallbackRegion, Span};

verus! {

/// The fixed block sizes, ascending and distinct: powers of two from 16 to
/// 2048 bytes. Each class serves requests whose required size (the larger of
/// size and alignment) is at most the class size.
pub open spec fn block_sizes() -> Seq<int> {
    seq![16, 32, 64, 128, 256, 512, 1024, 2048]
}

/// Block size of class `i`.
pub open spec fn class_size(i: int) -> int {
    block_sizes()[i]
}

/// Index of the smallest class whose block size is at least
/// `max(size, align)`, if any class is large enough.
pub open spec fn class_index(size: int, align: int) -> Option<int> {
    let required = if size >= align {
        size
    } else {
        align
    };
    if required <= 16 {
        Some(0int)
    } else if required <= 32 {
        Some(1int)
    } else if required <= 64 {
        Some(2int)
    } else if required <= 128 {
        Some(3int)
    } else if required <= 256 {
        Some(4int)
    } else if required <= 512 {
        Some(5int)
    } else if required <= 1024 {
        Some(6int)
    } else if required <= 2048 {
        Some(7int)
    } else {
        None
    }
}

/// Executable class selection: the smallest class whose size is at least
/// `max(size, align)`.
pub fn list_index(size: usize, align: usize) -> (r: Option<usize>)
    ensures
        match class_index(size as int, align as int) {
            Option::Some(i) => r == Some(i as usize),
            Option::None => r is None,
        },
{
    let required = if size >= align {
        size
    } else {
        align
    };
    if required <= 16 {
        Some(0)
    } else if required <= 32 {
        Some(1)
    } else if required <= 64 {
        Some(2)
    } else if required <= 128 {
        Some(3)
    } else if required <= 256 {
        Some(4)
    } else if required <= 512 {
        Some(5)
    } else if required <= 1024 {
        Some(6)
    } else if required <= 2048 {
        Some(7)
    } else {
        None
    }
}

/// Executable table of block sizes.
pub fn block_size_of(i: usize) -> (s: usize)
    requires
        i < 8,
    ensures
        s == class_size(i as int),
{
    match i {
        0 => 16,
        1 => 32,
        2 => 64,
        3 => 128,
        4 => 256,
        5 => 512,
        6 => 1024,
        _ => 2048,
    }
}

/// One allocation as the caller requested it; what the allocator actually
/// reserved for it follows from the class selection.
pub struct AllocRequest {
    pub size: int,
    pub align: int,
}

/// How many bytes the allocator reserved for this request: a whole class
/// block when a class serves it, otherwise exactly the requested size.
pub open spec fn request_reserved(req: AllocRequest) -> int {
    match class_index(req.size, req.align) {
        Option::Some(i) => class_size(i),
        Option::None => req.size,
    }
}

/// Whether the byte ranges `[a1, a1 + s1)` and `[a2, a2 + s2)` share no
/// address.
pub open spec fn ranges_disjoint(a1: int, s1: int, a2: int, s2: int) -> bool {
    a1 + s1 <= a2 || a2 + s2 <= a1
}

/// The system's global allocator: one free list of equal-sized blocks per
/// size class for O(1) reuse, backed by a general coalescing region for
/// everything else. The ghost `live` map records every allocation currently
/// handed out, keyed by its address.
pub struct FixedSizeBlockAllocator {
    pub list_heads: Vec<Vec<usize>>,
    pub fallback_allocator: FallbackRegion,
    pub live: Ghost<Map<int, AllocRequest>>,
}

impl FixedSizeBlockAllocator {
    /// The address of free block `j` of class `i`.
    pub open spec fn block_at(self, i: int, j: int) -> int {
        self.list_heads@[i]@[j] as int
    }

    /// Whether `(i, j)` names a block on some class free list.
    pub open spec fn block_valid(self, i: int, j: int) -> bool {
        0 <= i < 8 && 0 <= j < self.list_heads@[i]@.len()
    }

    /// Whether address `x` lies inside some free class block.
    pub open spec fn block_free(self, x: int) -> bool {
        exists|i: int, j: int|
            #![trigger self.block_at(i, j)]
            self.block_valid(i, j) && self.block_at(i, j) <= x < self.block_at(i, j)
                + class_size(i)
    }

    /// Whether address `x` lies inside some allocation currently handed out.
    pub open spec fn live_covers(self, x: int) -> bool {
        exists|b: int|
            #![trigger self.live@.dom().contains(b)]
            self.live@.dom().contains(b) && b <= x < b + request_reserved(self.live@[b])
    }

    /// Lowest address of the configured heap region.
    pub open spec fn region_start(self) -> int {
        self.fallback_allocator.region_start as int
    }

    /// One past the highest address of the configured heap region.
    pub open spec fn region_end(self) -> int {
        self.fallback_allocator.region_start + self.fallback_allocator.region_size
    }

    /// Every block on a class free list is a whole, class-aligned block
    /// inside the heap region.
    pub open spec fn lists_wf(self) -> bool {
        &&& self.list_heads@.len() == 8
        &&& forall|i: int, j: int|
            #![trigger self.block_at(i, j)]
            self.block_valid(i, j) ==> {
                &&& self.region_start() <= self.block_at(i, j)
                &&& self.block_at(i, j) + class_size(i) <= self.region_end()
                &&& self.block_at(i, j) % class_size(i) == 0
            }
    }

    /// Distinct free class blocks do not overlap.
    pub open spec fn blocks_disjoint(self) -> bool {
        forall|i: int, j: int, k: int, l: int|
            #![trigger self.block_at(i, j), self.block_at(k, l)]
            self.block_valid(i, j) && self.block_valid(k, l) && (i != k || j != l)
                ==> ranges_disjoint(
                self.block_at(i, j),
                class_size(i),
                self.block_at(k, l),
                class_size(k),
            )
    }

    /// Every live allocation is a well-placed reservation inside the heap
    /// region, class-aligned when a class serves it.
    pub open spec fn live_wf(self) -> bool {
        &&& forall|b: int|
            #![trigger self.live@.dom().contains(b)]
            self.live@.dom().contains(b) ==> {
                let req = self.live@[b];
                &&& req.size > 0
                &&& req.align > 0
                &&& self.region_start() <= b
                &&& b + request_reserved(req) <= self.region_end()
                &&& match class_index(req.size, req.align) {
                    Option::Some(i) => b % class_size(i) == 0,
                    Option::None => true,
                }
            }
        &&& forall|b1: int, b2: int|
            #![trigger self.live@.dom().contains(b1), self.live@.dom().contains(b2)]
            self.live@.dom().contains(b1) && self.live@.dom().contains(b2) && b1 != b2
                ==> ranges_disjoint(
                b1,
                request_reserved(self.live@[b1]),
                b2,
                request_reserved(self.live@[b2]),
            )
    }

    /// The three kinds of memory the allocator tracks (free class blocks,
    /// free fallback spans, live allocations) never share an address.
    pub open spec fn regions_separate(self) -> bool {
        &&& forall|x: int|
            #![trigger self.block_free(x)]
            self.block_free(x) ==> !self.fallback_allocator.covers(x) && !self.live_covers(x)
        &&& forall|x: int|
            #![trigger self.live_covers(x)]
            self.live_covers(x) ==> !self.fallback_allocator.covers(x)
    }

    /// Full structural soundness of the allocator.
    pub open spec fn wf(self) -> bool {
        &&& self.fallback_allocator.wf()
        &&& self.lists_wf()
        &&& self.blocks_disjoint()
        &&& self.live_wf()
        &&& self.regions_separate()
    }

    /// Whether the heap region has been configured.
    pub open spec fn configured(self) -> bool {
        self.fallback_allocator.configured
    }

    /// An allocator with empty free lists and no memory; `init` must run
    /// before any request.
    pub fn new() -> (r: Self)
        ensures
            r.wf(),
            !r.configured(),
            r.live@ == Map::<int, AllocRequest>::empty(),
            forall|i: int| 0 <= i < 8 ==> (#[trigger] r.list_heads@[i])@.len() == 0,
    {
        let mut list_heads: Vec<Vec<usize>> = Vec::new();
        let mut i: usize = 0;
        while i < 8
            invariant
                i <= 8,
                list_heads@.len() == i,
                forall|k: int| 0 <= k < i ==> (#[trigger] list_heads@[k])@.len() == 0,
            decreases 8 - i,
        {
            list_heads.push(Vec::new());
            i = i + 1;
        }
        let r = FixedSizeBlockAllocator {
            list_heads,
            fallback_allocator: FallbackRegion::empty(),
            live: Ghost(Map::empty()),
        };
        proof {
            assert forall|x: int| !r.block_free(x) by {
                if r.block_free(x) {
                    let (i, j) = choose|i: int, j: int|
                        #![trigger r.block_at(i, j)]
                        r.block_valid(i, j) && r.block_at(i, j) <= x < r.block_at(i, j)
                            + class_size(i);
                    assert(r.list_heads@[i]@.len() == 0);
                }
            }
            assert forall|x: int| !r.live_covers(x) by {}
        }
        r
    }

    /// Hand the byte range `[heap_start, heap_start + heap_size)` to the
    /// allocator. Must run once, after the range is usable and before any
    /// request; the caller may not configure the heap twice.
    pub fn init(&mut self, heap_start: usize, heap_size: usize)
        requires
            old(self).wf(),
            !old(self).configured(),
            old(self).live@ == Map::<int, AllocRequest>::empty(),
            forall|i: int| 0 <= i < 8 ==> (#[trigger] old(self).list_heads@[i])@.len() == 0,
            heap_start + heap_size <= usize::MAX,
        ensures
            final(self).wf(),
            final(self).configured(),
            final(self).region_start() == heap_start,
            final(self).region_end() == heap_start + heap_size,
            heap_size > 0 ==> final(self).fallback_allocator.free_list@ == seq![
                Span { addr: heap_start, size: heap_size },
            ],
            heap_size == 0 ==> final(self).fallback_allocator.free_list@ == Seq::<Span>::empty(),
            final(self).live@ == old(self).live@,
            final(self).list_heads@ == old(self).list_heads@,
    {
        self.fallback_allocator.init(heap_start, heap_size);
        proof {
            assert forall|x: int| !self.block_free(x) by {
                if self.block_free(x) {
                    let (i, j) = choose|i: int, j: int|
                        #![trigger self.block_at(i, j)]
                        self.block_valid(i, j) && self.block_at(i, j) <= x < self.block_at(i, j)
                            + class_size(i);
                    assert(self.list_heads@[i]@.len() == 0);
                }
            }
            assert forall|x: int| !self.live_covers(x) by {}
        }
    }

    /// Whether a request of `size` bytes at alignment `align` can currently
    /// be served: from the matching class's free list, by carving a class
    /// block out of the fallback region, or, outside every class, from the
    /// fallback region directly.
    pub open spec fn spec_can_allocate(self, size: int, align: int) -> bool {
        match class_index(size, align) {
            Option::Some(i) => self.list_heads@[i]@.len() > 0 || first_fit(
                self.fallback_allocator.free_list@,
                class_size(i),
                class_size(i),
            ) is Some,
            Option::None => first_fit(self.fallback_allocator.free_list@, size, align) is Some,
        }
    }

    /// Reuse the most recently freed block of class `idx`: pop the head of
    /// that class's free list and record the allocation as live.
    #[verifier::rlimit(100)]
    #[verifier::spinoff_prover]
    fn pop_class_block(&mut self, idx: usize, size: usize, align: usize) -> (b: usize)
        requires
            old(self).wf(),
            size > 0,
            align > 0,
            class_index(size as int, align as int) == Some(idx as int),
            idx < 8,
            old(self).list_heads@[idx as int]@.len() > 0,
        ensures
            final(self).wf(),
            final(self).fallback_allocator == old(self).fallback_allocator,
            b == old(self).list_heads@[idx as int]@.last(),
            final(self).list_heads@[idx as int]@ == old(self).list_heads@[
                idx as int
            ]@.drop_last(),
            forall|k: int|
                0 <= k < 8 && k != idx ==> (#[trigger] final(self).list_heads@[k])@ == old(
                    self,
                ).list_heads@[k]@,
            final(self).live@ == old(self).live@.insert(
                b as int,
                AllocRequest { size: size as int, align: align as int },
            ),
            old(self).region_start() <= b && b + class_size(idx as int) <= old(
                self,
            ).region_end(),
            b as int % class_size(idx as int) == 0,
            forall|b2: int|
                old(self).live@.dom().contains(b2) ==> ranges_disjoint(
                    b as int,
                    class_size(idx as int),
                    b2,
                    request_reserved(old(self).live@[b2]),
                ),
    {
        let ghost orig = *self;
        let ghost n = orig.list_heads@[idx as int]@.len() as int;
        let b = self.list_heads[idx].pop().unwrap();
        let ghost req = AllocRequest { size: size as int, align: align as int };
        proof {
            assert(orig.block_valid(idx as int, n - 1));
            assert(b == orig.block_at(idx as int, n - 1));
            self.live@ = orig.live@.insert(b as int, req);
            assert(request_reserved(req) == class_size(idx as int));
            // Every block of the shrunken lists is a block of the old lists.
            assert forall|i: int, j: int| #[trigger]
                self.block_valid(i, j) implies orig.block_valid(i, j) && self.block_at(i, j)
                == orig.block_at(i, j) by {}
            // The popped block does not overlap any old live allocation.
            assert forall|b2: int| orig.live@.dom().contains(b2) implies ranges_disjoint(
                b as int,
                class_size(idx as int),
                b2,
                request_reserved(orig.live@[b2]),
            ) by {
                if !ranges_disjoint(
                    b as int,
                    class_size(idx as int),
                    b2,
                    request_reserved(orig.live@[b2]),
                ) {
                    let x = if b as int >= b2 {
                        b as int
                    } else {
                        b2
                    };
                    assert(orig.block_at(idx as int, n - 1) <= x < orig.block_at(idx as int, n - 1)
                        + class_size(idx as int));
                    assert(orig.block_free(x));
                    assert(orig.live_covers(x));
                }
            }
            // The new live map stays pairwise disjoint.
            assert forall|b1: int, b2: int|
                #![trigger self.live@.dom().contains(b1), self.live@.dom().contains(b2)]
                self.live@.dom().contains(b1) && self.live@.dom().contains(b2) && b1
                    != b2 implies ranges_disjoint(
                b1,
                request_reserved(self.live@[b1]),
                b2,
                request_reserved(self.live@[b2]),
            ) by {}
            // The three memory kinds stay separate.
            assert forall|x: int| #[trigger]
                self.block_free(x) implies !self.fallback_allocator.covers(x) && !self.live_covers(
                x,
            ) by {
                let (i, j) = choose|i: int, j: int|
                    #![trigger self.block_at(i, j)]
                    self.block_valid(i, j) && self.block_at(i, j) <= x < self.block_at(i, j)
                        + class_size(i);
                assert(orig.block_at(i, j) == self.block_at(i, j));
                assert(orig.block_free(x));
                if self.live_covers(x) {
                    let bl = choose|bl: int|
                        #![trigger self.live@.dom().contains(bl)]
                        self.live@.dom().contains(bl) && bl <= x < bl + request_reserved(
                            self.live@[bl],
                        );
                    if bl == b as int {
                        // x would lie both in the popped block and in a
                        // remaining block: those are distinct old blocks.
                        assert(orig.block_at(idx as int, n - 1) == b as int);
                        assert(i != idx as int || j != n - 1);
                        assert(ranges_disjoint(
                            orig.block_at(i, j),
                            class_size(i),
                            orig.block_at(idx as int, n - 1),
                            class_size(idx as int),
                        ));
                    } else {
                        assert(orig.live_covers(x));
                    }
                }
            }
            assert forall|x: int| #[trigger]
                self.live_covers(x) implies !self.fallback_allocator.covers(x) by {
                let bl = choose|bl: int|
                    #![trigger self.live@.dom().contains(bl)]
                    self.live@.dom().contains(bl) && bl <= x < bl + request_reserved(
                        self.live@[bl],
                    );
                if bl == b as int {
                    assert(orig.block_at(idx as int, n - 1) <= x < orig.block_at(idx as int, n - 1)
                        + class_size(idx as int));
                    assert(orig.block_free(x));
                } else {
                    assert(orig.live_covers(x));
                }
            }
        }
        b
    }

    /// Serve a request by carving `fsize` bytes at alignment `falign` out of
    /// the fallback region; `fsize` and `falign` are the class block size
    /// when a class serves the request, and the request itself otherwise.
    #[verifier::rlimit(100)]
    #[verifier::spinoff_prover]
    fn alloc_via_fallback(&mut self, size: usize, align: usize, fsize: usize, falign: usize) -> (r:
        Option<usize>)
        requires
            old(self).wf(),
            old(self).configured(),
            size > 0,
            align > 0,
            fsize > 0,
            falign > 0,
            fsize == request_reserved(AllocRequest { size: size as int, align: align as int }),
            match class_index(size as int, align as int) {
                Option::Some(i) => falign == class_size(i),
                Option::None => falign == align,
            },
        ensures
            final(self).wf(),
            final(self).configured(),
            final(self).region_start() == old(self).region_start(),
            final(self).region_end() == old(self).region_end(),
            forall|k: int|
                0 <= k < 8 ==> (#[trigger] final(self).list_heads@[k])@ == old(
                    self,
                ).list_heads@[k]@,
            match first_fit(old(self).fallback_allocator.free_list@, fsize as int, falign as int) {
                Option::None => r is None && *final(self) == *old(self),
                Option::Some(af) => r == Some(af as usize),
            },
            (match first_fit_index(
                old(self).fallback_allocator.free_list@,
                fsize as int,
                falign as int,
            ) {
                Option::None => final(self).fallback_allocator.free_list@ == old(
                    self,
                ).fallback_allocator.free_list@,
                Option::Some(i) => final(self).fallback_allocator.free_list@ == carve_result(
                    old(self).fallback_allocator.free_list@,
                    i,
                    pad_for(
                        old(self).fallback_allocator.free_list@[i].addr as int,
                        falign as int,
                    ),
                    fsize as int,
                ),
            }),
            r matches Some(a) ==> {
                &&& a as int % falign as int == 0
                &&& final(self).live@ == old(self).live@.insert(
                    a as int,
                    AllocRequest { size: size as int, align: align as int },
                )
                &&& old(self).region_start() <= a && a + fsize <= old(self).region_end()
                &&& forall|b2: int|
                    old(self).live@.dom().contains(b2) ==> ranges_disjoint(
                        a as int,
                        fsize as int,
                        b2,
                        request_reserved(old(self).live@[b2]),
                    )
            },
            r is None ==> final(self).live@ == old(self).live@,
    {
        let ghost orig = *self;
        let ghost req = AllocRequest { size: size as int, align: align as int };
        let res = self.fallback_allocator.allocate_first_fit(fsize, falign);
        match res {
            Some(a) => {
                proof {
                    self.live@ = orig.live@.insert(a as int, req);
                    assert(request_reserved(req) == fsize);
                    // The class lists are untouched.
                    assert forall|i: int, j: int| #[trigger]
                        self.block_valid(i, j) implies orig.block_valid(i, j) && self.block_at(
                        i,
                        j,
                    ) == orig.block_at(i, j) by {}
                    assert(self.lists_wf());
                    assert forall|i: int, j: int, k: int, l: int|
                        #![trigger self.block_at(i, j), self.block_at(k, l)]
                        self.block_valid(i, j) && self.block_valid(k, l) && (i != k || j
                            != l) implies ranges_disjoint(
                        self.block_at(i, j),
                        class_size(i),
                        self.block_at(k, l),
                        class_size(k),
                    ) by {
                        assert(orig.block_at(i, j) == self.block_at(i, j));
                        assert(orig.block_at(k, l) == self.block_at(k, l));
                    }
                    // The carved range was free fallback memory, so it is
                    // disjoint from every live allocation and class block.
                    assert forall|b2: int| orig.live@.dom().contains(b2) implies ranges_disjoint(
                        a as int,
                        fsize as int,
                        b2,
                        request_reserved(orig.live@[b2]),
                    ) by {
                        if !ranges_disjoint(
                            a as int,
                            fsize as int,
                            b2,
                            request_reserved(orig.live@[b2]),
                        ) {
                            let x = if a as int >= b2 {
                                a as int
                            } else {
                                b2
                            };
                            assert(orig.live_covers(x));
                            assert(orig.fallback_allocator.covers(x));
                        }
                    }
                    assert forall|b1: int, b2: int|
                        #![trigger self.live@.dom().contains(b1), self.live@.dom().contains(b2)]
                        self.live@.dom().contains(b1) && self.live@.dom().contains(b2) && b1
                            != b2 implies ranges_disjoint(
                        b1,
                        request_reserved(self.live@[b1]),
                        b2,
                        request_reserved(self.live@[b2]),
                    ) by {}
                    assert forall|x: int| #[trigger]
                        self.block_free(x) implies !self.fallback_allocator.covers(x)
                        && !self.live_covers(x) by {
                        let (i, j) = choose|i: int, j: int|
                            #![trigger self.block_at(i, j)]
                            self.block_valid(i, j) && self.block_at(i, j) <= x < self.block_at(
                                i,
                                j,
                            ) + class_size(i);
                        assert(orig.block_at(i, j) == self.block_at(i, j));
                        assert(orig.block_free(x));
                        if self.live_covers(x) {
                            let bl = choose|bl: int|
                                #![trigger self.live@.dom().contains(bl)]
                                self.live@.dom().contains(bl) && bl <= x < bl + request_reserved(
                                    self.live@[bl],
                                );
                            if bl == a as int {
                                assert(orig.fallback_allocator.covers(x));
                            } else {
                                assert(orig.live_covers(x));
                            }
                        }
                    }
                    assert forall|x: int| #[trigger]
                        self.live_covers(x) implies !self.fallback_allocator.covers(x) by {
                        let bl = choose|bl: int|
                            #![trigger self.live@.dom().contains(bl)]
                            self.live@.dom().contains(bl) && bl <= x < bl + request_reserved(
                                self.live@[bl],
                            );
                        if bl == a as int {
                        } else {
                            assert(orig.live_covers(x));
                        }
                    }
                    assert(self.live_wf());
                    assert(self.regions_separate());
                }
                Some(a)
            },
            None => None,
        }
    }

    /// Serve a request of `size` bytes at alignment `align`. A matching
    /// class reuses its most recently freed block in O(1), replenishing
    /// itself from the fallback region with exactly one class block when its
    /// list is empty; a request too large for every class goes to the
    /// fallback region alone. Returns `None` on exhaustion, which callers
    /// treat as fatal.
    pub fn allocate(&mut self, size: usize, align: usize) -> (r: Option<usize>)
        requires
            old(self).wf(),
            old(self).configured(),
            size > 0,
            align > 0,
        ensures
            final(self).wf(),
            final(self).configured(),
            final(self).region_start() == old(self).region_start(),
            final(self).region_end() == old(self).region_end(),
            r is Some <==> old(self).spec_can_allocate(size as int, align as int),
            r is None ==> *final(self) == *old(self),
            r matches Some(a) ==> {
                &&& (match class_index(size as int, align as int) {
                    Option::Some(i) => a as int % class_size(i) == 0,
                    Option::None => a as int % align as int == 0,
                })
                &&& final(self).live@ == old(self).live@.insert(
                    a as int,
                    AllocRequest { size: size as int, align: align as int },
                )
                &&& old(self).region_start() <= a
                &&& a + request_reserved(
                    AllocRequest { size: size as int, align: align as int },
                ) <= old(self).region_end()
                &&& forall|b2: int|
                    old(self).live@.dom().contains(b2) ==> ranges_disjoint(
                        a as int,
                        request_reserved(
                            AllocRequest { size: size as int, align: align as int },
                        ),
                        b2,
                        request_reserved(old(self).live@[b2]),
                    )
            },
            match class_index(size as int, align as int) {
                Option::Some(i) => {
                    if old(self).list_heads@[i]@.len() > 0 {
                        // last freed block of the class is reused first
                        &&& r == Some(old(self).list_heads@[i]@.last())
                        &&& final(self).list_heads@[i]@ == old(self).list_heads@[i]@.drop_last()
                        &&& forall|k: int|
                            0 <= k < 8 && k != i ==> (#[trigger] final(self).list_heads@[k])@
                                == old(self).list_heads@[k]@
                        &&& final(self).fallback_allocator == old(self).fallback_allocator
                    } else {
                        // the class is replenished with exactly one block
                        &&& forall|k: int|
                            0 <= k < 8 ==> (#[trigger] final(self).list_heads@[k])@ == old(
                                self,
                            ).list_heads@[k]@
                        &&& match first_fit(
                            old(self).fallback_allocator.free_list@,
                            class_size(i),
                            class_size(i),
                        ) {
                            Option::Some(af) => r == Some(af as usize),
                            Option::None => r is None,
                        }
                        &&& match first_fit_index(
                            old(self).fallback_allocator.free_list@,
                            class_size(i),
                            class_size(i),
                        ) {
                            Option::None => final(self).fallback_allocator.free_list@ == old(
                                self,
                            ).fallback_allocator.free_list@,
                            Option::Some(fi) => final(self).fallback_allocator.free_list@
                                == carve_result(
                                old(self).fallback_allocator.free_list@,
                                fi,
                                pad_for(
                                    old(self).fallback_allocator.free_list@[fi].addr as int,
                                    class_size(i),
                                ),
                                class_size(i),
                            ),
                        }
                    }
                },
                Option::None => {
                    // too large for every class: served by the fallback alone
                    &&& forall|k: int|
                        0 <= k < 8 ==> (#[trigger] final(self).list_heads@[k])@ == old(
                            self,
                        ).list_heads@[k]@
                    &&& match first_fit(
                        old(self).fallback_allocator.free_list@,
                        size as int,
                        align as int,
                    ) {
                        Option::Some(af) => r == Some(af as usize),
                        Option::None => r is None,
                    }
                    &&& match first_fit_index(
                        old(self).fallback_allocator.free_list@,
                        size as int,
                        align as int,
                    ) {
                        Option::None => final(self).fallback_allocator.free_list@ == old(
                            self,
                        ).fallback_allocator.free_list@,
                        Option::Some(fi) => final(self).fallback_allocator.free_list@
                            == carve_result(
                            old(self).fallback_allocator.free_list@,
                            fi,
                            pad_for(
                                old(self).fallback_allocator.free_list@[fi].addr as int,
                                align as int,
                            ),
                            size as int,
                        ),
                    }
                },
            },
    {
        match list_index(size, align) {
            Some(idx) => {
                if self.list_heads[idx].len() > 0 {
                    Some(self.pop_class_block(idx, size, align))
                } else {
                    let bs = block_size_of(idx);
                    self.alloc_via_fallback(size, align, bs, bs)
                }
            },
            None => self.alloc_via_fallback(size, align, size, align),
        }
    }

    /// Put the freed block at the head of its class's free list, so the
    /// next request of that class reuses it first.
    #[verifier::rlimit(100)]
    #[verifier::spinoff_prover]
    fn push_class_block(&mut self, idx: usize, ptr: usize, size: usize, align: usize)
        requires
            old(self).wf(),
            idx < 8,
            class_index(size as int, align as int) == Some(idx as int),
            old(self).live@.dom().contains(ptr as int),
            old(self).live@[ptr as int] == (AllocRequest {
                size: size as int,
                align: align as int,
            }),
        ensures
            final(self).wf(),
            final(self).fallback_allocator == old(self).fallback_allocator,
            final(self).live@ == old(self).live@.remove(ptr as int),
            final(self).list_heads@[idx as int]@ == old(self).list_heads@[idx as int]@.push(ptr),
            forall|k: int|
                0 <= k < 8 && k != idx ==> (#[trigger] final(self).list_heads@[k])@ == old(
                    self,
                ).list_heads@[k]@,
    {
        let ghost orig = *self;
        let ghost req = orig.live@[ptr as int];
        let ghost n = orig.list_heads@[idx as int]@.len() as int;
        self.list_heads[idx].push(ptr);
        proof {
            self.live@ = orig.live@.remove(ptr as int);
            assert(request_reserved(req) == class_size(idx as int));
            // Every old block keeps its place; the freed block is the new
            // last block of its class.
            assert forall|i: int, j: int| #[trigger]
                self.block_valid(i, j) implies (orig.block_valid(i, j) && self.block_at(i, j)
                == orig.block_at(i, j)) || (i == idx as int && j == n && self.block_at(i, j)
                == ptr as int) by {}
            assert(self.block_at(idx as int, n) == ptr as int);
            assert(self.lists_wf());
            // The freed range overlaps no old free block.
            assert forall|i: int, j: int|
                orig.block_valid(i, j) implies ranges_disjoint(
                orig.block_at(i, j),
                class_size(i),
                ptr as int,
                class_size(idx as int),
            ) by {
                if !ranges_disjoint(
                    orig.block_at(i, j),
                    class_size(i),
                    ptr as int,
                    class_size(idx as int),
                ) {
                    let x = if orig.block_at(i, j) >= ptr as int {
                        orig.block_at(i, j)
                    } else {
                        ptr as int
                    };
                    assert(orig.block_free(x));
                    assert(orig.live_covers(x));
                }
            }
            assert forall|i: int, j: int, k: int, l: int|
                #![trigger self.block_at(i, j), self.block_at(k, l)]
                self.block_valid(i, j) && self.block_valid(k, l) && (i != k || j
                    != l) implies ranges_disjoint(
                self.block_at(i, j),
                class_size(i),
                self.block_at(k, l),
                class_size(k),
            ) by {
                if orig.block_valid(i, j) && orig.block_valid(k, l) {
                    assert(orig.block_at(i, j) == self.block_at(i, j));
                    assert(orig.block_at(k, l) == self.block_at(k, l));
                }
            }
            // The three memory kinds stay separate.
            assert forall|x: int| #[trigger]
                self.block_free(x) implies !self.fallback_allocator.covers(x) && !self.live_covers(
                x,
            ) by {
                let (i, j) = choose|i: int, j: int|
                    #![trigger self.block_at(i, j)]
                    self.block_valid(i, j) && self.block_at(i, j) <= x < self.block_at(i, j)
                        + class_size(i);
                if i == idx as int && j == n {
                    // inside the freed block, which was live
                    assert(orig.live_covers(x));
                    if self.live_covers(x) {
                        let bl = choose|bl: int|
                            #![trigger self.live@.dom().contains(bl)]
                            self.live@.dom().contains(bl) && bl <= x < bl + request_reserved(
                                self.live@[bl],
                            );
                        assert(orig.live@.dom().contains(bl) && bl != ptr as int);
                        assert(ranges_disjoint(
                            ptr as int,
                            request_reserved(req),
                            bl,
                            request_reserved(orig.live@[bl]),
                        ));
                    }
                } else {
                    assert(orig.block_free(x));
                    if self.live_covers(x) {
                        let bl = choose|bl: int|
                            #![trigger self.live@.dom().contains(bl)]
                            self.live@.dom().contains(bl) && bl <= x < bl + request_reserved(
                                self.live@[bl],
                            );
                        assert(orig.live_covers(x));
                    }
                }
            }
            assert forall|x: int| #[trigger]
                self.live_covers(x) implies !self.fallback_allocator.covers(x) by {
                let bl = choose|bl: int|
                    #![trigger self.live@.dom().contains(bl)]
                    self.live@.dom().contains(bl) && bl <= x < bl + request_reserved(
                        self.live@[bl],
                    );
                assert(orig.live_covers(x));
            }
        }
    }

    /// Return a freed range that no class serves to the fallback region,
    /// which may coalesce it with adjacent free spans.
    #[verifier::rlimit(100)]
    #[verifier::spinoff_prover]
    fn dealloc_via_fallback(&mut self, ptr: usize, size: usize, align: usize)
        requires
            old(self).wf(),
            old(self).configured(),
            class_index(size as int, align as int) is None,
            old(self).live@.dom().contains(ptr as int),
            old(self).live@[ptr as int] == (AllocRequest {
                size: size as int,
                align: align as int,
            }),
        ensures
            final(self).wf(),
            final(self).configured(),
            final(self).region_start() == old(self).region_start(),
            final(self).region_end() == old(self).region_end(),
            final(self).live@ == old(self).live@.remove(ptr as int),
            forall|k: int|
                0 <= k < 8 ==> (#[trigger] final(self).list_heads@[k])@ == old(
                    self,
                ).list_heads@[k]@,
            final(self).fallback_allocator.free_list@ == dealloc_result(
                old(self).fallback_allocator.free_list@,
                ptr as int,
                size as int,
            ),
            forall|x: int|
                final(self).fallback_allocator.covers(x) <==> (
                old(self).fallback_allocator.covers(x) || (ptr <= x < ptr + size)),
    {
        let ghost orig = *self;
        let ghost req = orig.live@[ptr as int];
        proof {
            assert(request_reserved(req) == size as int);
            assert(size > 0);
            // The freed range is live, hence inside the region and free of
            // fallback coverage.
            assert forall|x: int| ptr <= x < ptr + size implies !old(
                self,
            ).fallback_allocator.covers(x) by {
                assert(orig.live_covers(x));
            }
        }
        self.fallback_allocator.deallocate(ptr, size);
        proof {
            self.live@ = orig.live@.remove(ptr as int);
            assert forall|i: int, j: int| #[trigger]
                self.block_valid(i, j) implies orig.block_valid(i, j) && self.block_at(i, j)
                == orig.block_at(i, j) by {}
            assert(self.lists_wf());
            assert forall|i: int, j: int, k: int, l: int|
                #![trigger self.block_at(i, j), self.block_at(k, l)]
                self.block_valid(i, j) && self.block_valid(k, l) && (i != k || j
                    != l) implies ranges_disjoint(
                self.block_at(i, j),
                class_size(i),
                self.block_at(k, l),
                class_size(k),
            ) by {
                assert(orig.block_at(i, j) == self.block_at(i, j));
                assert(orig.block_at(k, l) == self.block_at(k, l));
            }
            assert forall|x: int| #[trigger]
                self.block_free(x) implies !self.fallback_allocator.covers(x) && !self.live_covers(
                x,
            ) by {
                let (i, j) = choose|i: int, j: int|
                    #![trigger self.block_at(i, j)]
                    self.block_valid(i, j) && self.block_at(i, j) <= x < self.block_at(i, j)
                        + class_size(i);
                assert(orig.block_at(i, j) == self.block_at(i, j));
                assert(orig.block_free(x));
                if ptr <= x < ptr + size {
                    assert(orig.live_covers(x));
                }
                if self.live_covers(x) {
                    let bl = choose|bl: int|
                        #![trigger self.live@.dom().contains(bl)]
                        self.live@.dom().contains(bl) && bl <= x < bl + request_reserved(
                            self.live@[bl],
                        );
                    assert(orig.live_covers(x));
                }
            }
            assert forall|x: int| #[trigger]
                self.live_covers(x) implies !self.fallback_allocator.covers(x) by {
                let bl = choose|bl: int|
                    #![trigger self.live@.dom().contains(bl)]
                    self.live@.dom().contains(bl) && bl <= x < bl + request_reserved(
                        self.live@[bl],
                    );
                assert(orig.live_covers(x));
                assert(orig.live@.dom().contains(bl) && bl != ptr as int);
                if ptr <= x < ptr + size {
                    assert(ranges_disjoint(
                        ptr as int,
                        request_reserved(req),
                        bl,
                        request_reserved(orig.live@[bl]),
                    ));
                }
            }
        }
    }

    /// Release the allocation at `ptr`, which must have been returned by
    /// `allocate` for the same `size` and `align` and not freed since. A
    /// class-served block goes to the head of its class's free list in O(1)
    /// with no coalescing; anything else returns to the fallback region.
    pub fn deallocate(&mut self, ptr: usize, size: usize, align: usize)
        requires
            old(self).wf(),
            old(self).configured(),
            old(self).live@.dom().contains(ptr as int),
            old(self).live@[ptr as int] == (AllocRequest {
                size: size as int,
                align: align as int,
            }),
        ensures
            final(self).wf(),
            final(self).configured(),
            final(self).region_start() == old(self).region_start(),
            final(self).region_end() == old(self).region_end(),
            final(self).live@ == old(self).live@.remove(ptr as int),
            (match class_index(size as int, align as int) {
                Option::Some(i) => {
                    // the freed block becomes the first reused of its class
                    &&& final(self).list_heads@[i]@ == old(self).list_heads@[i]@.push(ptr)
                    &&& forall|k: int|
                        0 <= k < 8 && k != i ==> (#[trigger] final(self).list_heads@[k])@ == old(
                            self,
                        ).list_heads@[k]@
                    &&& final(self).fallback_allocator == old(self).fallback_allocator
                },
                Option::None => {
                    &&& forall|k: int|
                        0 <= k < 8 ==> (#[trigger] final(self).list_heads@[k])@ == old(
                            self,
                        ).list_heads@[k]@
                    &&& final(self).fallback_allocator.free_list@ == dealloc_result(
                        old(self).fallback_allocator.free_list@,
                        ptr as int,
                        size as int,
                    )
                    &&& forall|x: int|
                        final(self).fallback_allocator.covers(x) <==> (
                        old(self).fallback_allocator.covers(x) || (ptr <= x < ptr + size))
                },
            }),
    {
        match list_index(size, align) {
            Some(idx) => self.push_class_block(idx, ptr, size, align),
            None => self.dealloc_via_fallback(ptr, size, align),
        }
    }
}

/// Law: in every reachable allocator state, no two allocations that are
/// simultaneously live overlap in address range. `allocate` establishes
/// this for each allocation it hands out and `deallocate` only removes
/// entries, so it holds along any call sequence that frees only what is
/// live.
pub proof fn lemma_live_allocations_disjoint(a: FixedSizeBlockAllocator, b1: int, b2: int)
    requires
        a.wf(),
        a.live@.dom().contains(b1),
        a.live@.dom().contains(b2),
        b1 != b2,
    ensures
        ranges_disjoint(
            b1,
            request_reserved(a.live@[b1]),
            b2,
            request_reserved(a.live@[b2]),
        ),
{
}

/// Law: a freed block is immediately eligible for reuse, and is reused
/// before any other free block of its class. `after_free` is an allocator
/// state as `deallocate(ptr, size, align)` leaves it: the freed block stands
/// at the head position of its class's list. Any following request that the
/// same class serves can be satisfied, and `allocate`'s contract then
/// returns exactly `ptr` for it.
pub proof fn lemma_freed_block_reused_first(
    before_free: FixedSizeBlockAllocator,
    after_free: FixedSizeBlockAllocator,
    ptr: usize,
    size: int,
    align: int,
    size2: int,
    align2: int,
    i: int,
)
    requires
        class_index(size, align) == Some(i),
        class_index(size2, align2) == Some(i),
        0 <= i < 8,
        after_free.list_heads@.len() == 8,
        after_free.list_heads@[i]@ == before_free.list_heads@[i]@.push(ptr),
    ensures
        after_free.list_heads@[i]@.len() > 0,
        after_free.list_heads@[i]@.last() == ptr,
        after_free.spec_can_allocate(size2, align2),
{
}

/// Law: a request whose required size (the larger of size and alignment)
/// exceeds the largest fixed class selects no class, so `allocate` and
/// `deallocate` serve it exclusively through the fallback region and leave
/// every class free list untouched.
pub proof fn lemma_oversize_served_by_fallback_alone(size: int, align: int)
    requires
        size > 2048 || align > 2048,
    ensures
        class_index(size, align) is None,
{
}

/// A multiple of `d2 * f` is a multiple of `d2`.
proof fn lemma_divides_transfer(b: int, d1: int, d2: int, f: int)
    requires
        d1 == d2 * f,
        d1 > 0,
        d2 > 0,
        f > 0,
        b % d1 == 0,
    ensures
        b % d2 == 0,
{
    let t = b / d1;
    vstd::arithmetic::div_mod::lemma_fundamental_div_mod(b, d1);
    assert(b == (f * t) * d2) by (nonlinear_arith)
        requires
            b == d1 * t + b % d1,
            b % d1 == 0,
            d1 == d2 * f,
    ;
    vstd::arithmetic::div_mod::lemma_mod_multiples_basic(f * t, d2);
}

/// Law: a class-served block satisfies the request's alignment. The class
/// chosen for a power-of-two alignment has a block size that is a larger
/// power of two, and every block of the class is aligned to the class's own
/// size, hence to the requested alignment too.
pub proof fn lemma_class_block_serves_alignment(b: int, size: int, align: int, i: int)
    requires
        class_index(size, align) == Some(i),
        b % class_size(i) == 0,
        align == 1 || align == 2 || align == 4 || align == 8 || align == 16 || align == 32
            || align == 64 || align == 128 || align == 256 || align == 512 || align == 1024
            || align == 2048,
    ensures
        b % align == 0,
{
    assert(0 <= i < 8);
    assert(align <= class_size(i));
    assert(class_size(i) % align == 0);
    lemma_divides_transfer(b, class_size(i), align, class_size(i) / align);
}

} // verus!
