use vstd::prelude::*;
use vstd::arithmetic::div_mod::{lemma_fundamental_div_mod, lemma_mod_multiples_basic};

verus! {

/// One run of free bytes inside the fallback region: the half-open address
/// range `[addr, addr + size)`.
#[derive(Debug, Clone, Copy, PartialEq, Eq, Structural)]
pub struct Span {
    pub addr: usize,
    pub size: usize,
}

/// Whether address `x` lies inside span `sp`.
pub open spec fn in_span(sp: Span, x: int) -> bool {
    sp.addr <= x < sp.addr + sp.size
}

/// Whether address `x` lies inside some span of `s`.
pub open spec fn seq_covers(s: Seq<Span>, x: int) -> bool {
    exists|i: int| 0 <= i < s.len() && in_span(#[trigger] s[i], x)
}

/// Every span is non-empty.
pub open spec fn spans_positive(s: Seq<Span>) -> bool {
    forall|i: int| 0 <= i < s.len() ==> (#[trigger] s[i]).size > 0
}

/// Spans appear in ascending address order and do not overlap.
pub open spec fn spans_ordered(s: Seq<Span>) -> bool {
    forall|i: int|
        0 <= i < s.len() - 1 ==> (#[trigger] s[i]).addr + s[i].size <= s[i + 1].addr
}

/// Every span lies inside `[start, start + size)`.
pub open spec fn spans_bounded(s: Seq<Span>, start: int, size: int) -> bool {
    forall|i: int|
        0 <= i < s.len() ==> start <= (#[trigger] s[i]).addr && s[i].addr + s[i].size <= start
            + size
}

/// The padding that takes `addr` up to the next multiple of `align`.
pub open spec fn pad_for(addr: int, align: int) -> int
    recommends
        align > 0,
{
    if addr % align == 0 {
        0
    } else {
        align - addr % align
    }
}

/// Whether a request of `size` bytes at alignment `align` fits inside `sp`,
/// once `sp`'s start is padded up to the alignment.
pub open spec fn span_fits(sp: Span, size: int, align: int) -> bool
    recommends
        align > 0,
{
    pad_for(sp.addr as int, align) + size <= sp.size
}

/// The address a first-fit scan of `s` yields for a request of `size` bytes
/// at alignment `align`: the aligned start of the first span that fits.
pub open spec fn first_fit(s: Seq<Span>, size: int, align: int) -> Option<int>
    recommends
        align > 0,
    decreases s.len(),
{
    if s.len() == 0 {
        None
    } else if span_fits(s[0], size, align) {
        Some(s[0].addr + pad_for(s[0].addr as int, align))
    } else {
        first_fit(s.drop_first(), size, align)
    }
}

/// The index of the first span a first-fit scan settles on.
pub open spec fn first_fit_index(s: Seq<Span>, size: int, align: int) -> Option<int>
    recommends
        align > 0,
    decreases s.len(),
{
    if s.len() == 0 {
        None
    } else if span_fits(s[0], size, align) {
        Some(0int)
    } else {
        match first_fit_index(s.drop_first(), size, align) {
            Option::Some(i) => Some(i + 1),
            Option::None => None,
        }
    }
}

/// How many spans of a sorted list begin strictly below `addr`: the place
/// where a span starting at `addr` belongs.
pub open spec fn insert_pos(s: Seq<Span>, addr: int) -> int
    decreases s.len(),
{
    if s.len() == 0 {
        0
    } else if s[0].addr < addr {
        1 + insert_pos(s.drop_first(), addr)
    } else {
        0
    }
}

/// The free list after the range `[addr, addr + size)` returns to it: the
/// range is joined with a free span ending exactly at `addr`, with one
/// beginning exactly at `addr + size`, with both, or stands alone.
pub open spec fn dealloc_result(s: Seq<Span>, addr: int, size: int) -> Seq<Span> {
    let k = insert_pos(s, addr);
    let join_left = k > 0 && s[k - 1].addr + s[k - 1].size == addr;
    let join_right = k < s.len() && addr + size == s[k].addr;
    if join_left && join_right {
        s.update(
            k - 1,
            Span { addr: s[k - 1].addr, size: (s[k - 1].size + size + s[k].size) as usize },
        ).remove(k)
    } else if join_left {
        s.update(k - 1, Span { addr: s[k - 1].addr, size: (s[k - 1].size + size) as usize })
    } else if join_right {
        s.update(k, Span { addr: addr as usize, size: (size + s[k].size) as usize })
    } else {
        s.insert(k, Span { addr: addr as usize, size: size as usize })
    }
}

/// Padding the start of a non-negative address up to `align` lands on a
/// multiple of `align`.
proof fn lemma_pad_aligns(addr: int, align: int)
    requires
        align > 0,
        addr >= 0,
    ensures
        (addr + pad_for(addr, align)) % align == 0,
{
    if addr % align != 0 {
        let q = addr / align;
        lemma_fundamental_div_mod(addr, align);
        assert(addr + pad_for(addr, align) == align * (q + 1)) by (nonlinear_arith)
            requires
                addr == align * q + addr % align,
                addr % align != 0,
                pad_for(addr, align) == align - addr % align,
        ;
        lemma_mod_multiples_basic(q + 1, align);
        assert((align * (q + 1)) % align == 0);
    }
}

/// In an ordered, positive sequence of spans, an earlier span ends no later
/// than a later span begins.
proof fn lemma_span_order(s: Seq<Span>, i: int, j: int)
    requires
        spans_ordered(s),
        spans_positive(s),
        0 <= i < j < s.len(),
    ensures
        s[i].addr + s[i].size <= s[j].addr,
    decreases j - i,
{
    if i + 1 < j {
        lemma_span_order(s, i, j - 1);
    }
}

/// Distinct spans of an ordered, positive sequence share no address.
proof fn lemma_distinct_spans_disjoint(s: Seq<Span>, i: int, j: int, x: int)
    requires
        spans_ordered(s),
        spans_positive(s),
        0 <= i < s.len(),
        0 <= j < s.len(),
        i != j,
        in_span(s[i], x),
    ensures
        !in_span(s[j], x),
{
    if i < j {
        lemma_span_order(s, i, j);
    } else {
        lemma_span_order(s, j, i);
    }
}

/// Removing a span splits coverage: an address is covered by `s` exactly
/// when it is covered by the remainder or by the removed span.
proof fn lemma_covers_remove(s: Seq<Span>, k: int, x: int)
    requires
        0 <= k < s.len(),
    ensures
        seq_covers(s, x) <==> (seq_covers(s.remove(k), x) || in_span(s[k], x)),
{
    s.remove_ensures(k);
    let t = s.remove(k);
    if seq_covers(s, x) {
        let i = choose|i: int| 0 <= i < s.len() && in_span(#[trigger] s[i], x);
        if i < k {
            assert(in_span(t[i], x));
        } else if i > k {
            assert(in_span(t[i - 1], x));
        }
    }
    if seq_covers(t, x) {
        let i = choose|i: int| 0 <= i < t.len() && in_span(#[trigger] t[i], x);
        if i < k {
            assert(in_span(s[i], x));
        } else {
            assert(in_span(s[i + 1], x));
        }
    }
}

/// Inserting a span extends coverage by exactly that span.
proof fn lemma_covers_insert(s: Seq<Span>, k: int, sp: Span, x: int)
    requires
        0 <= k <= s.len(),
    ensures
        seq_covers(s.insert(k, sp), x) <==> (seq_covers(s, x) || in_span(sp, x)),
{
    s.insert_ensures(k, sp);
    let t = s.insert(k, sp);
    if seq_covers(t, x) {
        let i = choose|i: int| 0 <= i < t.len() && in_span(#[trigger] t[i], x);
        if i < k {
            assert(in_span(s[i], x));
        } else if i > k {
            assert(in_span(s[i - 1], x));
        }
    }
    if seq_covers(s, x) {
        let i = choose|i: int| 0 <= i < s.len() && in_span(#[trigger] s[i], x);
        if i < k {
            assert(in_span(t[i], x));
        } else {
            assert(in_span(t[i + 1], x));
        }
    }
    if in_span(sp, x) {
        assert(in_span(t[k], x));
    }
}

/// Replacing a span replaces its contribution to coverage.
proof fn lemma_covers_update(s: Seq<Span>, k: int, sp: Span, x: int)
    requires
        0 <= k < s.len(),
    ensures
        seq_covers(s.update(k, sp), x) <==> (seq_covers(s.remove(k), x) || in_span(sp, x)),
{
    s.remove_ensures(k);
    s.insert_ensures(k, sp);
    s.remove(k).insert_ensures(k, sp);
    assert(s.update(k, sp) =~= s.remove(k).insert(k, sp));
    lemma_covers_insert(s.remove(k), k, sp, x);
}

/// A first-fit scan skips a span that does not fit.
proof fn lemma_first_fit_skip(s: Seq<Span>, idx: int, size: int, align: int)
    requires
        align > 0,
        0 <= idx < s.len(),
        !span_fits(s[idx], size, align),
    ensures
        first_fit(s.subrange(idx, s.len() as int), size, align) == first_fit(
            s.subrange(idx + 1, s.len() as int),
            size,
            align,
        ),
        first_fit_index(s.subrange(idx, s.len() as int), size, align) == (match first_fit_index(
            s.subrange(idx + 1, s.len() as int),
            size,
            align,
        ) {
            Option::Some(i) => Some(i + 1),
            Option::None => None::<int>,
        }),
{
    let sub = s.subrange(idx, s.len() as int);
    assert(sub[0] == s[idx]);
    assert(sub.drop_first() =~= s.subrange(idx + 1, s.len() as int));
}

/// The free list that results from carving `size` bytes, after `pad` bytes
/// of padding, out of the span at `idx`: the span is removed and the unused
/// lead and tail of it are kept.
pub open spec fn carve_result(s0: Seq<Span>, idx: int, pad: int, size: int) -> Seq<Span> {
    let sp = s0[idx];
    let a = sp.addr + pad;
    let suffix_size = sp.size - pad - size;
    let s1 = s0.remove(idx);
    let s2 = if pad > 0 {
        s1.insert(idx, Span { addr: sp.addr, size: pad as usize })
    } else {
        s1
    };
    let at = if pad > 0 {
        idx + 1
    } else {
        idx
    };
    if suffix_size > 0 {
        s2.insert(at, Span { addr: (a + size) as usize, size: suffix_size as usize })
    } else {
        s2
    }
}

/// Carving preserves the structural soundness of the free list.
#[verifier::rlimit(100)]
#[verifier::spinoff_prover]
proof fn lemma_carve_wf(s0: Seq<Span>, idx: int, pad: int, size: int, start: int, rsize: int)
    requires
        spans_positive(s0),
        spans_ordered(s0),
        spans_bounded(s0, start, rsize),
        0 <= idx < s0.len(),
        0 <= pad,
        size > 0,
        pad + size <= s0[idx].size,
        s0[idx].addr + s0[idx].size <= usize::MAX,
    ensures
        spans_positive(carve_result(s0, idx, pad, size)),
        spans_ordered(carve_result(s0, idx, pad, size)),
        spans_bounded(carve_result(s0, idx, pad, size), start, rsize),
{
    assert(pad as usize == pad);
    assert((s0[idx].addr + pad) as usize == s0[idx].addr + pad);
    assert((s0[idx].size - pad - size) as usize == s0[idx].size - pad - size);
    let sp = s0[idx];
    let a = sp.addr + pad;
    let suffix_size = sp.size - pad - size;
    let s1 = s0.remove(idx);
    let prefix = Span { addr: sp.addr, size: pad as usize };
    let suffix = Span { addr: (a + size) as usize, size: suffix_size as usize };
    let at = if pad > 0 {
        idx + 1
    } else {
        idx
    };
    let s2 = if pad > 0 {
        s1.insert(idx, prefix)
    } else {
        s1
    };
    let s3 = carve_result(s0, idx, pad, size);
    s0.remove_ensures(idx);
    if pad > 0 {
        s1.insert_ensures(idx, prefix);
    }
    if suffix_size > 0 {
        s2.insert_ensures(at, suffix);
    }
    assert forall|i: int| 0 <= i < s3.len() - 1 implies (#[trigger] s3[i]).addr + s3[i].size <= s3[
        i + 1
    ].addr by {
        if idx - 1 >= 0 {
            lemma_span_order(s0, idx - 1, idx);
        }
        if idx + 1 < s0.len() {
            lemma_span_order(s0, idx, idx + 1);
        }
    }
}

/// Carving removes exactly the carved range from coverage.
proof fn lemma_carve_covers(s0: Seq<Span>, idx: int, pad: int, size: int, x: int)
    requires
        spans_positive(s0),
        spans_ordered(s0),
        0 <= idx < s0.len(),
        0 <= pad,
        size > 0,
        pad + size <= s0[idx].size,
        s0[idx].addr + s0[idx].size <= usize::MAX,
    ensures
        seq_covers(carve_result(s0, idx, pad, size), x) <==> (seq_covers(s0, x) && !(s0[idx].addr
            + pad <= x < s0[idx].addr + pad + size)),
{
    assert(pad as usize == pad);
    assert((s0[idx].addr + pad) as usize == s0[idx].addr + pad);
    assert((s0[idx].size - pad - size) as usize == s0[idx].size - pad - size);
    let sp = s0[idx];
    let a = sp.addr + pad;
    let suffix_size = sp.size - pad - size;
    let s1 = s0.remove(idx);
    let prefix = Span { addr: sp.addr, size: pad as usize };
    let suffix = Span { addr: (a + size) as usize, size: suffix_size as usize };
    let at = if pad > 0 {
        idx + 1
    } else {
        idx
    };
    let s2 = if pad > 0 {
        s1.insert(idx, prefix)
    } else {
        s1
    };
    lemma_covers_remove(s0, idx, x);
    if pad > 0 {
        lemma_covers_insert(s1, idx, prefix, x);
    }
    if suffix_size > 0 {
        lemma_covers_insert(s2, at, suffix, x);
    }
    if in_span(sp, x) && !(a <= x < a + size) {
        assert(in_span(prefix, x) || in_span(suffix, x));
    }
    if seq_covers(s1, x) {
        s0.remove_ensures(idx);
        let j = choose|j: int| 0 <= j < s1.len() && in_span(#[trigger] s1[j], x);
        if j < idx {
            lemma_distinct_spans_disjoint(s0, j, idx, x);
        } else {
            assert(s1[j] == s0[j + 1]);
            lemma_distinct_spans_disjoint(s0, j + 1, idx, x);
        }
    }
}

/// A scan for the insertion place skips a span that begins below `addr`.
proof fn lemma_insert_pos_skip(s: Seq<Span>, idx: int, addr: int)
    requires
        0 <= idx < s.len(),
        s[idx].addr < addr,
    ensures
        insert_pos(s.subrange(idx, s.len() as int), addr) == 1 + insert_pos(
            s.subrange(idx + 1, s.len() as int),
            addr,
        ),
{
    let sub = s.subrange(idx, s.len() as int);
    assert(sub[0] == s[idx]);
    assert(sub.drop_first() =~= s.subrange(idx + 1, s.len() as int));
}

/// General coalescing allocator over one contiguous byte range, used for
/// requests outside the fixed size classes and for replenishing them. It
/// tracks the free bytes of its region as a sorted sequence of disjoint
/// spans; every other byte of the region is currently handed out.
pub struct FallbackRegion {
    pub region_start: usize,
    pub region_size: usize,
    pub configured: bool,
    pub free_list: Vec<Span>,
}

impl FallbackRegion {
    /// Structural soundness: the region fits in the address space and the
    /// free list is made of non-empty, ordered, disjoint spans inside it.
    pub open spec fn wf(self) -> bool {
        &&& self.region_start + self.region_size <= usize::MAX
        &&& spans_positive(self.free_list@)
        &&& spans_ordered(self.free_list@)
        &&& spans_bounded(self.free_list@, self.region_start as int, self.region_size as int)
    }

    /// Whether address `x` is currently free.
    pub open spec fn covers(self, x: int) -> bool {
        seq_covers(self.free_list@, x)
    }

    /// A region that owns no memory yet; it must be configured exactly once
    /// before any allocation.
    pub fn empty() -> (r: Self)
        ensures
            r.wf(),
            !r.configured,
            r.free_list@.len() == 0,
            forall|x: int| !r.covers(x),
    {
        FallbackRegion { region_start: 0, region_size: 0, configured: false, free_list: Vec::new() }
    }

    /// Hand the byte range `[start, start + size)` to the region. May run
    /// only once, after the range is usable and before any allocation.
    pub fn init(&mut self, start: usize, size: usize)
        requires
            !old(self).configured,
            start + size <= usize::MAX,
        ensures
            final(self).wf(),
            final(self).configured,
            final(self).region_start == start,
            final(self).region_size == size,
            size > 0 ==> final(self).free_list@ == seq![Span { addr: start, size }],
            size == 0 ==> final(self).free_list@ == Seq::<Span>::empty(),
            forall|x: int| final(self).covers(x) <==> start <= x < start + size,
    {
        let mut free_list: Vec<Span> = Vec::new();
        if size > 0 {
            free_list.push(Span { addr: start, size });
        }
        self.region_start = start;
        self.region_size = size;
        self.configured = true;
        self.free_list = free_list;
        proof {
            assert forall|x: int| self.covers(x) <==> start <= x < start + size by {
                if size > 0 && start <= x < start + size {
                    assert(in_span(self.free_list@[0], x));
                }
            }
        }
    }

    /// Index of the first span that can hold a request of `size` bytes at
    /// alignment `align`, scanning in address order.
    fn find_fit_index(&self, size: usize, align: usize) -> (r: Option<usize>)
        requires
            self.wf(),
            size > 0,
            align > 0,
        ensures
            match r {
                Option::Some(i) => {
                    &&& i < self.free_list@.len()
                    &&& span_fits(self.free_list@[i as int], size as int, align as int)
                    &&& first_fit_index(self.free_list@, size as int, align as int) == Some(
                        i as int,
                    )
                    &&& first_fit(self.free_list@, size as int, align as int) == Some(
                        self.free_list@[i as int].addr + pad_for(
                            self.free_list@[i as int].addr as int,
                            align as int,
                        ),
                    )
                },
                Option::None => first_fit(self.free_list@, size as int, align as int) is None
                    && first_fit_index(self.free_list@, size as int, align as int) is None,
            },
    {
        let ghost s = self.free_list@;
        let ghost n = self.free_list@.len() as int;
        let mut idx: usize = 0;
        proof {
            assert(s.subrange(0, n) =~= s);
        }
        while idx < self.free_list.len()
            invariant
                self.wf(),
                size > 0,
                align > 0,
                s == self.free_list@,
                n == s.len(),
                0 <= idx <= n,
                first_fit(s, size as int, align as int) == first_fit(
                    s.subrange(idx as int, n),
                    size as int,
                    align as int,
                ),
                first_fit_index(s, size as int, align as int) == (match first_fit_index(
                    s.subrange(idx as int, n),
                    size as int,
                    align as int,
                ) {
                    Option::Some(j) => Some(j + idx),
                    Option::None => None::<int>,
                }),
            decreases n - idx,
        {
            let sp = self.free_list[idx];
            let rem: usize = sp.addr % align;
            let pad: usize = if rem == 0 {
                0
            } else {
                align - rem
            };
            assert(pad == pad_for(sp.addr as int, align as int));
            if pad <= sp.size && size <= sp.size - pad {
                proof {
                    let sub = s.subrange(idx as int, n);
                    assert(sub[0] == s[idx as int]);
                    assert(span_fits(sub[0], size as int, align as int));
                }
                return Some(idx);
            }
            proof {
                lemma_first_fit_skip(s, idx as int, size as int, align as int);
            }
            idx = idx + 1;
        }
        proof {
            assert(s.subrange(n, n) =~= Seq::<Span>::empty());
        }
        None
    }

    /// Carve the aligned range of `size` bytes out of the span at `idx`,
    /// keeping the unused lead and tail of the span on the free list.
    #[verifier::rlimit(100)]
    #[verifier::spinoff_prover]
    fn carve_at(&mut self, idx: usize, size: usize, align: usize) -> (a: usize)
        requires
            old(self).wf(),
            size > 0,
            align > 0,
            idx < old(self).free_list@.len(),
            span_fits(old(self).free_list@[idx as int], size as int, align as int),
        ensures
            final(self).wf(),
            final(self).configured == old(self).configured,
            final(self).region_start == old(self).region_start,
            final(self).region_size == old(self).region_size,
            a == old(self).free_list@[idx as int].addr + pad_for(
                old(self).free_list@[idx as int].addr as int,
                align as int,
            ),
            final(self).free_list@ == carve_result(
                old(self).free_list@,
                idx as int,
                pad_for(old(self).free_list@[idx as int].addr as int, align as int),
                size as int,
            ),
            a as int % align as int == 0,
            old(self).region_start <= a,
            a + size <= old(self).region_start + old(self).region_size,
            forall|x: int| a <= x < a + size ==> old(self).covers(x),
            forall|x: int|
                final(self).covers(x) <==> (old(self).covers(x) && !(a <= x < a + size)),
    {
        let ghost orig = *self;
        let sp = self.free_list[idx];
        let rem: usize = sp.addr % align;
        let pad: usize = if rem == 0 {
            0
        } else {
            align - rem
        };
        proof {
            assert(pad == pad_for(sp.addr as int, align as int));
            lemma_pad_aligns(sp.addr as int, align as int);
        }
        let a: usize = sp.addr + pad;
        let suffix_size: usize = sp.size - pad - size;
        let ghost s0 = self.free_list@;
        self.free_list.remove(idx);
        let prefix = Span { addr: sp.addr, size: pad };
        let suffix = Span { addr: a + size, size: suffix_size };
        proof {
            assert(idx < old(self).free_list.len());
        }
        let mut at: usize = idx;
        if pad > 0 {
            self.free_list.insert(at, prefix);
            at = at + 1;
        }
        if suffix_size > 0 {
            self.free_list.insert(at, suffix);
        }
        proof {
            assert(self.free_list@ =~= carve_result(s0, idx as int, pad as int, size as int));
            lemma_carve_wf(
                s0,
                idx as int,
                pad as int,
                size as int,
                orig.region_start as int,
                orig.region_size as int,
            );
            assert forall|x: int|
                self.covers(x) <==> (old(self).covers(x) && !(a <= x < a + size)) by {
                lemma_carve_covers(s0, idx as int, pad as int, size as int, x);
                assert(seq_covers(self.free_list@, x) == seq_covers(
                    carve_result(s0, idx as int, pad as int, size as int),
                    x,
                ));
            }
            assert forall|x: int| a <= x < a + size implies old(self).covers(x) by {
                assert(in_span(old(self).free_list@[idx as int], x));
            }
        }
        a
    }

    /// Serve a request of `size` bytes at alignment `align` from the first
    /// free span that can hold it, splitting that span around the returned
    /// range. Returns `None` exactly when no free span fits; the region is
    /// then unchanged.
    pub fn allocate_first_fit(&mut self, size: usize, align: usize) -> (r: Option<usize>)
        requires
            old(self).wf(),
            old(self).configured,
            size > 0,
            align > 0,
        ensures
            final(self).wf(),
            final(self).configured,
            final(self).region_start == old(self).region_start,
            final(self).region_size == old(self).region_size,
            match first_fit(old(self).free_list@, size as int, align as int) {
                Option::None => r is None && *final(self) == *old(self),
                Option::Some(a) => r == Some(a as usize),
            },
            (match first_fit_index(old(self).free_list@, size as int, align as int) {
                Option::None => final(self).free_list@ == old(self).free_list@,
                Option::Some(i) => final(self).free_list@ == carve_result(
                    old(self).free_list@,
                    i,
                    pad_for(old(self).free_list@[i].addr as int, align as int),
                    size as int,
                ),
            }),
            r matches Some(a) ==> {
                &&& a as int % align as int == 0
                &&& old(self).region_start <= a
                &&& a + size <= old(self).region_start + old(self).region_size
                &&& forall|x: int| a <= x < a + size ==> old(self).covers(x)
                &&& forall|x: int|
                    final(self).covers(x) <==> (old(self).covers(x) && !(a <= x < a + size))
            },
    {
        match self.find_fit_index(size, align) {
            Some(idx) => Some(self.carve_at(idx, size, align)),
            None => None,
        }
    }

    /// Return the range `[addr, addr + size)`, which must lie inside the
    /// region and be currently handed out, to the free list, coalescing it
    /// with an adjacent free span on either side.
    #[verifier::rlimit(100)]
    #[verifier::spinoff_prover]
    pub fn deallocate(&mut self, addr: usize, size: usize)
        requires
            old(self).wf(),
            old(self).configured,
            size > 0,
            old(self).region_start <= addr,
            addr + size <= old(self).region_start + old(self).region_size,
            forall|x: int| addr <= x < addr + size ==> !old(self).covers(x),
        ensures
            final(self).wf(),
            final(self).configured,
            final(self).region_start == old(self).region_start,
            final(self).region_size == old(self).region_size,
            final(self).free_list@ == dealloc_result(old(self).free_list@, addr as int, size as int),
            forall|x: int|
                final(self).covers(x) <==> (old(self).covers(x) || (addr <= x < addr + size)),
    {
        let ghost orig = *self;
        let ghost n = self.free_list@.len() as int;
        let mut idx: usize = 0;
        proof {
            assert(orig.free_list@.subrange(0, n) =~= orig.free_list@);
        }
        while idx < self.free_list.len() && self.free_list[idx].addr < addr
            invariant
                *self == orig,
                orig.wf(),
                0 <= idx <= n,
                n == orig.free_list@.len(),
                forall|k: int| 0 <= k < idx ==> (#[trigger] orig.free_list@[k]).addr < addr,
                insert_pos(orig.free_list@, addr as int) == idx + insert_pos(
                    orig.free_list@.subrange(idx as int, n),
                    addr as int,
                ),
            decreases n - idx,
        {
            proof {
                lemma_insert_pos_skip(orig.free_list@, idx as int, addr as int);
            }
            idx = idx + 1;
        }
        proof {
            // the scan stopped exactly at the insertion place
            if idx < self.free_list.len() {
                let sub = orig.free_list@.subrange(idx as int, n);
                assert(sub[0] == orig.free_list@[idx as int]);
                assert(insert_pos(sub, addr as int) == 0);
            } else {
                assert(orig.free_list@.subrange(n, n) =~= Seq::<Span>::empty());
            }
            assert(insert_pos(orig.free_list@, addr as int) == idx as int);
        }
        proof {
            let s = orig.free_list@;
            // Spans before `idx` end at or before `addr`; spans at or after
            // `idx` begin at or after `addr + size`. Both follow from the
            // freed range being disjoint from every free span.
            assert(!old(self).covers(addr as int));
            assert forall|k: int| 0 <= k < idx implies (#[trigger] s[k]).addr + s[k].size
                <= addr by {
                if s[k].addr + s[k].size > addr {
                    assert(in_span(s[k], addr as int));
                    assert(old(self).covers(addr as int));
                }
            }
            if idx < self.free_list.len() {
                if s[idx as int].addr < addr + size {
                    assert(in_span(s[idx as int], s[idx as int].addr as int));
                    assert(old(self).covers(s[idx as int].addr as int));
                    assert(!old(self).covers(s[idx as int].addr as int));
                }
            }
            assert forall|k: int| idx <= k < n implies addr + size <= (#[trigger] s[k]).addr by {
                if k > idx {
                    lemma_span_order(s, idx as int, k);
                }
            }
        }
        let merge_left: bool = idx > 0 && {
            let left = self.free_list[idx - 1];
            left.addr + left.size == addr
        };
        let merge_right: bool = idx < self.free_list.len() && addr + size
            == self.free_list[idx].addr;
        let ghost s0 = self.free_list@;
        if merge_left && merge_right {
            let left = self.free_list[idx - 1];
            let right = self.free_list[idx];
            proof {
                assert(left.addr + left.size + size + right.size <= orig.region_start
                    + orig.region_size);
            }
            let merged = Span { addr: left.addr, size: left.size + size + right.size };
            self.free_list[idx - 1] = merged;
            let ghost s1 = self.free_list@;
            self.free_list.remove(idx);
            proof {
                let k = idx as int;
                let u = s0.remove(k);
                s0.remove_ensures(k);
                s1.remove_ensures(k);
                u.insert_ensures(k - 1, merged);
                u.remove_ensures(k - 1);
                u.remove(k - 1).insert_ensures(k - 1, merged);
                // Dropping the right span from the updated list is the same
                // as replacing the left span inside the list without the
                // right one.
                assert(self.free_list@ =~= u.update(k - 1, merged));
                assert(spans_positive(self.free_list@));
                assert(spans_ordered(self.free_list@));
                assert(spans_bounded(
                    self.free_list@,
                    orig.region_start as int,
                    orig.region_size as int,
                ));
                assert forall|x: int|
                    self.covers(x) <==> (orig.covers(x) || (addr <= x < addr + size)) by {
                    lemma_covers_update(u, k - 1, merged, x);
                    lemma_covers_remove(u, k - 1, x);
                    lemma_covers_remove(s0, k, x);
                    assert(in_span(merged, x) <==> (in_span(left, x) || (addr <= x < addr + size)
                        || in_span(right, x)));
                }
                assert(self.free_list@ =~= dealloc_result(s0, addr as int, size as int));
            }
        } else if merge_left {
            let left = self.free_list[idx - 1];
            let merged = Span { addr: left.addr, size: left.size + size };
            self.free_list[idx - 1] = merged;
            proof {
                let k = idx as int - 1;
                s0.remove_ensures(k);
                s0.remove(k).insert_ensures(k, merged);
                assert(spans_positive(self.free_list@));
                assert(spans_ordered(self.free_list@));
                assert(spans_bounded(
                    self.free_list@,
                    orig.region_start as int,
                    orig.region_size as int,
                ));
                assert forall|x: int|
                    self.covers(x) <==> (orig.covers(x) || (addr <= x < addr + size)) by {
                    lemma_covers_update(s0, k, merged, x);
                    lemma_covers_remove(s0, k, x);
                    assert(in_span(merged, x) <==> (in_span(left, x) || (addr <= x < addr
                        + size)));
                }
                assert(self.free_list@ =~= dealloc_result(s0, addr as int, size as int));
            }
        } else if merge_right {
            let right = self.free_list[idx];
            let merged = Span { addr, size: size + right.size };
            self.free_list[idx] = merged;
            proof {
                let k = idx as int;
                s0.remove_ensures(k);
                s0.remove(k).insert_ensures(k, merged);
                assert(spans_positive(self.free_list@));
                assert(spans_ordered(self.free_list@));
                assert(spans_bounded(
                    self.free_list@,
                    orig.region_start as int,
                    orig.region_size as int,
                ));
                assert forall|x: int|
                    self.covers(x) <==> (orig.covers(x) || (addr <= x < addr + size)) by {
                    lemma_covers_update(s0, k, merged, x);
                    lemma_covers_remove(s0, k, x);
                    assert(in_span(merged, x) <==> ((addr <= x < addr + size) || in_span(
                        right,
                        x,
                    )));
                }
                assert(self.free_list@ =~= dealloc_result(s0, addr as int, size as int));
            }
        } else {
            let fresh = Span { addr, size };
            self.free_list.insert(idx, fresh);
            proof {
                s0.insert_ensures(idx as int, fresh);
                assert(spans_positive(self.free_list@));
                assert(spans_ordered(self.free_list@));
                assert(spans_bounded(
                    self.free_list@,
                    orig.region_start as int,
                    orig.region_size as int,
                ));
                assert forall|x: int|
                    self.covers(x) <==> (orig.covers(x) || (addr <= x < addr + size)) by {
                    lemma_covers_insert(s0, idx as int, fresh, x);
                }
                assert(self.free_list@ =~= dealloc_result(s0, addr as int, size as int));
            }
        }
    }
}

} // verus!
