//! The kernel heap: slab classes of power-of-two blocks from 8 to 4096 bytes,
//! and a bump region for everything else. Addresses are handed out as
//! integers; clearing the pages they lie in is left to the caller.
use vstd::prelude::*;

verus! {

pub const SLAB_MIN_SIZE: usize = 8;
pub const SLAB_MAX_SIZE: usize = 4096;
pub const SLAB_CLASSES: usize = 10;
pub const MAX_BLOCKS_PER_CLASS: usize = 1024;
/// Bytes a slab class takes from the heap at a time.
pub const SLAB_PAGE: usize = 4096;

/// Block size of slab class `i`: `8 << i`.
pub open spec fn class_size(i: int) -> int
    decreases i,
{
    if i <= 0 {
        8
    } else {
        2 * class_size(i - 1)
    }
}

proof fn lemma_class_sizes()
    ensures
        class_size(0) == 8,
        class_size(1) == 16,
        class_size(2) == 32,
        class_size(3) == 64,
        class_size(4) == 128,
        class_size(5) == 256,
        class_size(6) == 512,
        class_size(7) == 1024,
        class_size(8) == 2048,
        class_size(9) == 4096,
{
    reveal_with_fuel(class_size, 10);
}

proof fn lemma_class_size_bounds(i: int)
    requires
        0 <= i < 10,
    ensures
        8 <= class_size(i) <= 4096,
        i + 1 < 10 ==> class_size(i + 1) == 2 * class_size(i),
{
    lemma_class_sizes();
    if i == 0 {
    } else if i == 1 {
    } else if i == 2 {
    } else if i == 3 {
    } else if i == 4 {
    } else if i == 5 {
    } else if i == 6 {
    } else if i == 7 {
    } else if i == 8 {
    } else {
    }
}

/// Class sizes grow with the class.
proof fn lemma_class_order(a: int, b: int)
    requires
        0 <= a < b < 10,
    ensures
        class_size(a) <= class_size(b - 1),
        class_size(a) < class_size(b),
    decreases b - a,
{
    lemma_class_size_bounds(b - 1);
    if a < b - 1 {
        lemma_class_order(a, b - 1);
    }
}

/// One slab class: its block size and the stack of free blocks.
struct SlabClass {
    block_size: usize,
    free_list: [usize; 1024],
    free_count: usize,
    total_count: usize,
    next_page: usize,
}

/// A slab class as plain values: free blocks, last freed on top.
pub struct SlabView {
    pub block_size: usize,
    pub free: Seq<usize>,
    pub total_count: usize,
    pub next_page: usize,
}

impl SlabClass {
    spec fn view(&self) -> SlabView {
        SlabView {
            block_size: self.block_size,
            free: self.free_list@.subrange(0, self.free_count as int),
            total_count: self.total_count,
            next_page: self.next_page,
        }
    }

    spec fn wf(&self, i: int) -> bool {
        &&& self.block_size == class_size(i)
        &&& self.free_count <= self.total_count <= MAX_BLOCKS_PER_CLASS
    }

    /// Takes the block on top of the free stack.
    fn pop(&mut self) -> (p: usize)
        requires
            old(self).free_count > 0,
            old(self).free_count <= 1024,
        ensures
            p == old(self).view().free.last(),
            final(self).view() == (SlabView {
                free: old(self).view().free.drop_last(),
                ..old(self).view()
            }),
            final(self).block_size == old(self).block_size,
            final(self).total_count == old(self).total_count,
            final(self).free_count == old(self).free_count - 1,
    {
        self.free_count = self.free_count - 1;
        let p = self.free_list[self.free_count];
        assert(self.view().free =~= old(self).view().free.drop_last());
        p
    }

    /// Splits the fresh page at `page` into blocks, as many as fit and the
    /// class's limit allows, all free.
    fn refill(&mut self, i: usize, page: usize)
        requires
            old(self).wf(i as int),
            i < SLAB_CLASSES,
            old(self).free_count == 0,
            page + SLAB_PAGE <= usize::MAX,
        ensures
            final(self).wf(i as int),
            final(self).block_size == old(self).block_size,
            final(self).next_page == old(self).next_page,
            final(self).total_count == old(self).total_count + page_blocks(i as int, old(self).total_count as int),
            final(self).free_count == page_blocks(i as int, old(self).total_count as int),
            final(self).view().free == page_block_addrs(page as int, i as int, page_blocks(i as int, old(self).total_count as int)),
    {
        let bs = self.block_size;
        proof {
            lemma_class_size_bounds(i as int);
        }
        let per_page = SLAB_PAGE / bs;
        let room = MAX_BLOCKS_PER_CLASS - self.total_count;
        let n = if per_page < room {
            per_page
        } else {
            room
        };
        let ghost total0 = self.total_count;
        let mut added: usize = 0;
        while added < n
            invariant
                added <= n,
                n == page_blocks(i as int, total0 as int),
                n <= SLAB_PAGE / bs,
                total0 + n <= MAX_BLOCKS_PER_CLASS,
                bs == class_size(i as int),
                8 <= bs,
                i < SLAB_CLASSES,
                self.block_size == bs,
                self.next_page == old(self).next_page,
                self.free_count == 0,
                self.total_count == total0 + added,
                page + SLAB_PAGE <= usize::MAX,
                forall|k: int| 0 <= k < added ==> self.free_list@[k] == (page + k * bs) as usize,
            decreases n - added,
        {
            proof {
                assert(added * bs < SLAB_PAGE) by (nonlinear_arith)
                    requires
                        added < n,
                        n <= SLAB_PAGE / bs,
                        bs > 0,
                ;
            }
            self.free_list.set(added, page + added * bs);
            added = added + 1;
            self.total_count = self.total_count + 1;
        }
        self.free_count = added;
        assert(self.view().free =~= page_block_addrs(page as int, i as int, n as int));
    }
}

/// The heap as plain values.
pub struct HeapView {
    pub heap_start: usize,
    pub heap_size: usize,
    pub bump_offset: usize,
    pub slabs: Seq<SlabView>,
    pub initialized: bool,
}

/// The heap allocator.
pub struct SlabAllocator {
    heap_start: usize,
    heap_size: usize,
    bump_offset: usize,
    slabs: Vec<SlabClass>,
    initialized: bool,
}

/// Blocks a fresh page gives class `i`: as many as fit, within the class's
/// limit of `MAX_BLOCKS_PER_CLASS` blocks.
pub open spec fn page_blocks(i: int, total: int) -> int {
    let per_page = SLAB_PAGE as int / class_size(i);
    if per_page < MAX_BLOCKS_PER_CLASS - total {
        per_page
    } else {
        MAX_BLOCKS_PER_CLASS - total
    }
}

/// The blocks `from..from+n` of a page at `page` in class `i`.
pub open spec fn page_block_addrs(page: int, i: int, n: int) -> Seq<usize> {
    Seq::new(n as nat, |j: int| (page + j * class_size(i)) as usize)
}

impl SlabAllocator {
    pub closed spec fn view(&self) -> HeapView {
        HeapView {
            heap_start: self.heap_start,
            heap_size: self.heap_size,
            bump_offset: self.bump_offset,
            slabs: Seq::new(self.slabs@.len(), |i: int| self.slabs@[i].view()),
            initialized: self.initialized,
        }
    }

    /// Ten classes of sizes `8 << i`, counts within limits, the bump offset
    /// within the heap, and the heap within the address space.
    pub closed spec fn wf(&self) -> bool {
        &&& self.slabs@.len() == SLAB_CLASSES
        &&& forall|i: int| 0 <= i < SLAB_CLASSES ==> #[trigger] self.slabs@[i].wf(i)
        &&& self.bump_offset <= self.heap_size
        &&& self.heap_start + self.heap_size <= usize::MAX
    }

    /// An empty heap with its ten classes, not yet given memory.
    pub fn new() -> (h: Self)
        ensures
            h.wf(),
            h.view().heap_start == 0,
            h.view().heap_size == 0,
            h.view().bump_offset == 0,
            !h.view().initialized,
            forall|i: int|
                0 <= i < SLAB_CLASSES ==> (#[trigger] h.view().slabs[i]).free.len() == 0
                    && h.view().slabs[i].total_count == 0 && h.view().slabs[i].block_size
                    == class_size(i),
    {
        let mut slabs: Vec<SlabClass> = Vec::new();
        let mut i: usize = 0;
        let mut size: usize = SLAB_MIN_SIZE;
        while i < SLAB_CLASSES
            invariant
                i <= SLAB_CLASSES,
                slabs@.len() == i,
                i < SLAB_CLASSES ==> size == class_size(i as int),
                forall|k: int| 0 <= k < i ==> #[trigger] slabs@[k].wf(k) && slabs@[k].free_count == 0
                    && slabs@[k].total_count == 0,
            decreases SLAB_CLASSES - i,
        {
            proof {
                lemma_class_size_bounds(i as int);
            }
            slabs.push(
                SlabClass {
                    block_size: size,
                    free_list: [0; 1024],
                    free_count: 0,
                    total_count: 0,
                    next_page: 0,
                },
            );
            if i + 1 < SLAB_CLASSES {
                size = size * 2;
            }
            i = i + 1;
        }
        let h = SlabAllocator { heap_start: 0, heap_size: 0, bump_offset: 0, slabs, initialized: false };
        assert forall|i: int| 0 <= i < SLAB_CLASSES implies (#[trigger] h.view().slabs[i]).free.len() == 0
            && h.view().slabs[i].total_count == 0 && h.view().slabs[i].block_size == class_size(i) by {
            assert(h.view().slabs[i] == h.slabs@[i].view());
            assert(h.slabs@[i].wf(i));
        }
        h
    }

    /// The smallest class whose blocks hold `size` bytes; none for 0 or
    /// more than `SLAB_MAX_SIZE`.
    pub fn find_slab_class(size: usize) -> (r: Option<usize>)
        ensures
            (size == 0 || size > SLAB_MAX_SIZE) ==> r is None,
            !(size == 0 || size > SLAB_MAX_SIZE) ==> (r matches Some(c) && c < SLAB_CLASSES && size
                <= class_size(c as int) && (c == 0 || class_size(c - 1) < size)),
    {
        if size > SLAB_MAX_SIZE || size == 0 {
            return None;
        }
        proof {
            lemma_class_sizes();
        }
        let mut i: usize = 0;
        let mut class_size_now: usize = SLAB_MIN_SIZE;
        while i < SLAB_CLASSES
            invariant
                i <= SLAB_CLASSES,
                0 < size <= SLAB_MAX_SIZE,
                class_size_now == class_size(i as int),
                i == 0 || class_size(i - 1) < size,
                class_size(0) == 8,
                class_size(9) == 4096,
                forall|k: int| 0 < k < 10 ==> #[trigger] class_size(k) == 2 * class_size(k - 1),
            decreases SLAB_CLASSES - i,
        {
            if size <= class_size_now {
                return Some(i);
            }
            if i + 1 == SLAB_CLASSES {
                return None;
            }
            class_size_now = class_size_now * 2;
            i = i + 1;
        }
        None
    }

    /// Where an allocation of `size` bytes aligned to `align` comes from:
    /// the slab class that fits `max(size, align)` bytes when its blocks are
    /// at least `align` bytes; `None` for the bump region.
    pub fn slab_for_alloc(size: usize, align: usize) -> (r: Option<usize>)
        ensures
            ({
                let a = if size < align {
                    align
                } else {
                    size
                };
                if a == 0 || a > SLAB_MAX_SIZE {
                    r is None
                } else {
                    match r {
                        Some(c) => c < SLAB_CLASSES && a <= class_size(c as int) && (c == 0 || class_size(c - 1) < a)
                            && class_size(c as int) >= align,
                        None => forall|c: int|
                            0 <= c < SLAB_CLASSES && a <= #[trigger] class_size(c) && (c == 0 || class_size(c - 1) < a)
                                ==> class_size(c) < align,
                    }
                }
            }),
    {
        let aligned_size = if size < align {
            align
        } else {
            size
        };
        match Self::find_slab_class(aligned_size) {
            Some(c) => {
                let mut bs: usize = SLAB_MIN_SIZE;
                let mut i: usize = 0;
                while i < c
                    invariant
                        i <= c < SLAB_CLASSES,
                        bs == class_size(i as int),
                    decreases c - i,
                {
                    proof {
                        lemma_class_size_bounds(i as int);
                    }
                    bs = bs * 2;
                    i = i + 1;
                }
                proof {
                    assert forall|k: int| 0 <= k < SLAB_CLASSES && aligned_size <= #[trigger] class_size(k) && (k == 0
                        || class_size(k - 1) < aligned_size) implies k == c by {
                        if k < c {
                            lemma_class_order(k, c as int);
                        } else if c < k {
                            lemma_class_order(c as int, k);
                        }
                    }
                }
                if bs >= align {
                    Some(c)
                } else {
                    None
                }
            },
            None => None,
        }
    }

    /// The slab class a block of `size` bytes aligned to `align` goes back
    /// to; `None` for memory from the bump region, which is not reused.
    pub fn slab_for_dealloc(size: usize, align: usize) -> (r: Option<usize>)
        ensures
            r == Self::find_slab_class_spec(if size < align {
                align
            } else {
                size
            }),
    {
        let aligned_size = if size < align {
            align
        } else {
            size
        };
        let r = Self::find_slab_class(aligned_size);
        proof {
            match r {
                Some(c) => {
                    assert forall|k: int| 0 <= k < SLAB_CLASSES && aligned_size <= #[trigger] class_size(k) && (k
                        == 0 || class_size(k - 1) < aligned_size) implies k == c by {
                        if k < c {
                            lemma_class_order(k, c as int);
                        } else if c < k {
                            lemma_class_order(c as int, k);
                        }
                    }
                },
                None => {},
            }
        }
        r
    }

    /// The smallest class that holds `size` bytes.
    pub open spec fn find_slab_class_spec(size: usize) -> Option<usize> {
        if size == 0 || size > SLAB_MAX_SIZE {
            None
        } else {
            Some(
                (choose|c: int|
                    0 <= c < SLAB_CLASSES && size <= #[trigger] class_size(c) && (c == 0 || class_size(c - 1)
                        < size)) as usize,
            )
        }
    }

    /// Gives the heap `[start, start + size)`: each class gets one page of
    /// blocks from the start on (up to its limit), and the bump region
    /// begins after those pages. A heap already given memory is unchanged.
    pub fn init(&mut self, start: usize, size: usize)
        requires
            old(self).wf(),
            start + size <= usize::MAX,
            start + SLAB_CLASSES * SLAB_PAGE <= usize::MAX,
            SLAB_CLASSES * SLAB_PAGE <= size,
        ensures
            final(self).wf(),
            old(self).view().initialized ==> final(self).view() == old(self).view(),
            !old(self).view().initialized ==> {
                &&& final(self).view().initialized
                &&& final(self).view().heap_start == start
                &&& final(self).view().heap_size == size
                &&& final(self).view().bump_offset == SLAB_CLASSES * SLAB_PAGE
                &&& forall|i: int|
                    0 <= i < SLAB_CLASSES ==> (#[trigger] final(self).view().slabs[i]).free
                        == page_block_addrs(start + i * SLAB_PAGE, i, page_blocks(i, 0))
                        && final(self).view().slabs[i].total_count == page_blocks(i, 0)
                        && final(self).view().slabs[i].next_page == start + i * SLAB_PAGE
                        && final(self).view().slabs[i].block_size == class_size(i)
            },
    {
        if self.initialized {
            return;
        }
        self.heap_start = start;
        self.heap_size = size;
        self.bump_offset = 0;
        let mut offset: usize = 0;
        let mut i: usize = 0;
        let ghost old_slabs = self.slabs@;
        while i < SLAB_CLASSES
            invariant
                i <= SLAB_CLASSES,
                offset == i * SLAB_PAGE,
                start + SLAB_CLASSES * SLAB_PAGE <= usize::MAX,
                self.heap_start == start,
                self.heap_size == size,
                self.bump_offset == 0,
                !self.initialized,
                self.slabs@.len() == SLAB_CLASSES,
                forall|k: int| 0 <= k < SLAB_CLASSES ==> #[trigger] self.slabs@[k].wf(k),
                forall|k: int|
                    0 <= k < i ==> (#[trigger] self.slabs@[k]).view().free == page_block_addrs(
                        start + k * SLAB_PAGE,
                        k,
                        page_blocks(k, 0),
                    ) && self.slabs@[k].total_count == page_blocks(k, 0) && self.slabs@[k].next_page
                        == start + k * SLAB_PAGE,
            decreases SLAB_CLASSES - i,
        {
            let page_addr = start + offset;
            let ghost before = self.slabs@;
            let mut slab = self.slabs.remove(i);
            assert(slab == before[i as int]);
            assert(slab.wf(i as int));
            slab.next_page = page_addr;
            slab.free_count = 0;
            slab.total_count = 0;
            let bs = slab.block_size;
            proof {
                lemma_class_size_bounds(i as int);
                assert(self.slabs@.len() == 9);
            }
            let per_page = SLAB_PAGE / bs;
            let n = if per_page < MAX_BLOCKS_PER_CLASS {
                per_page
            } else {
                MAX_BLOCKS_PER_CLASS
            };
            let mut j: usize = 0;
            while j < n
                invariant
                    j <= n <= MAX_BLOCKS_PER_CLASS,
                    n == page_blocks(i as int, 0),
                    n <= SLAB_PAGE / bs,
                    8 <= bs,
                    bs == class_size(i as int),
                    i < SLAB_CLASSES,
                    page_addr == start + i * SLAB_PAGE,
                    start + SLAB_CLASSES * SLAB_PAGE <= usize::MAX,
                    slab.block_size == bs,
                    slab.next_page == page_addr,
                    slab.free_count == j,
                    slab.total_count == j,
                    forall|k: int|
                        0 <= k < j ==> slab.free_list@[k] == (page_addr + k * bs) as usize,
                decreases n - j,
            {
                proof {
                    assert(j * bs < SLAB_PAGE) by (nonlinear_arith)
                        requires
                            j < n,
                            n <= SLAB_PAGE / bs,
                            bs > 0,
                    ;
                }
                slab.free_list.set(j, page_addr + j * bs);
                slab.free_count = slab.free_count + 1;
                slab.total_count = slab.total_count + 1;
                j = j + 1;
            }
            assert(slab.view().free =~= page_block_addrs(page_addr as int, i as int, n as int));
            self.slabs.insert(i, slab);
            assert(self.slabs@ =~= before.update(i as int, slab));
            offset = offset + SLAB_PAGE;
            i = i + 1;
        }
        self.bump_offset = offset;
        self.initialized = true;
        assert forall|i: int| 0 <= i < SLAB_CLASSES implies (#[trigger] self.view().slabs[i]).free
            == page_block_addrs(start + i * SLAB_PAGE, i, page_blocks(i, 0)) && self.view().slabs[i].total_count
            == page_blocks(i, 0) && self.view().slabs[i].next_page == start + i * SLAB_PAGE
            && self.view().slabs[i].block_size == class_size(i) by {
            assert(self.view().slabs[i] == self.slabs@[i].view());
            assert(self.slabs@[i].wf(i));
        }
    }

    /// A block of class `c`: the last freed one when there is one; else a
    /// fresh page from the bump region is split into blocks (as far as the
    /// class's limit allows) and one of them is given. 0 when the heap has
    /// no page left, or the class is at its limit.
    pub fn alloc_from_slab(&mut self, c: usize) -> (p: usize)
        requires
            old(self).wf(),
            c < SLAB_CLASSES,
        ensures
            final(self).wf(),
            final(self).view().heap_start == old(self).view().heap_start,
            final(self).view().heap_size == old(self).view().heap_size,
            final(self).view().initialized == old(self).view().initialized,
            forall|k: int|
                0 <= k < SLAB_CLASSES && k != c ==> #[trigger] final(self).view().slabs[k] == old(
                    self,
                ).view().slabs[k],
            ({
                let s = old(self).view().slabs[c as int];
                let o = old(self).view();
                if s.free.len() > 0 {
                    p == s.free.last() && final(self).view().slabs[c as int].free == s.free.drop_last()
                        && final(self).view().bump_offset == o.bump_offset
                } else if o.bump_offset + SLAB_PAGE > o.heap_size {
                    p == 0 && final(self).view() == o
                } else {
                    let page = o.heap_start + o.bump_offset;
                    let n = page_blocks(c as int, s.total_count as int);
                    &&& final(self).view().bump_offset == o.bump_offset + SLAB_PAGE
                    &&& final(self).view().slabs[c as int].total_count == s.total_count + n
                    &&& if n > 0 {
                        p == page + (n - 1) * class_size(c as int) && final(self).view().slabs[c as int].free
                            == page_block_addrs(page, c as int, n - 1)
                    } else {
                        p == 0 && final(self).view().slabs[c as int].free.len() == 0
                    }
                }
            }),
    {
        let ghost o = self.view();
        let ghost before = self.slabs@;
        let mut slab = self.slabs.remove(c);
        proof {
            assert(slab == before[c as int]);
            assert(slab.wf(c as int));
            assert(slab.view() == o.slabs[c as int]);
            assert(self.view().bump_offset == self.bump_offset);
        }
        if slab.free_count > 0 {
            let ptr = slab.pop();
            assert(slab.wf(c as int));
            self.slabs.insert(c, slab);
            proof {
                assert(self.slabs@ =~= before.update(c as int, slab));
                assert(self.view().slabs =~= o.slabs.update(c as int, self.slabs@[c as int].view()));
                assert forall|i: int| 0 <= i < SLAB_CLASSES implies #[trigger] self.slabs@[i].wf(i) by {
                    if i != c {
                        assert(self.slabs@[i] == before[i]);
                    }
                }
                assert(self.view().bump_offset == o.bump_offset);
            }
            return ptr;
        }
        if SLAB_PAGE > self.heap_size - self.bump_offset {
            self.slabs.insert(c, slab);
            proof {
                assert(self.slabs@ =~= before);
                assert(self.view().slabs =~= o.slabs);
            }
            return 0;
        }
        let new_page = self.heap_start + self.bump_offset;
        self.bump_offset = self.bump_offset + SLAB_PAGE;
        slab.refill(c, new_page);
        if slab.free_count > 0 {
            let ptr = slab.pop();
            self.slabs.insert(c, slab);
            proof {
                assert(self.slabs@ =~= before.update(c as int, slab));
                assert(self.view().slabs =~= o.slabs.update(c as int, self.slabs@[c as int].view()));
                let n = page_blocks(c as int, o.slabs[c as int].total_count as int);
                let cs = class_size(c as int);
                lemma_class_size_bounds(c as int);
                assert(n <= SLAB_PAGE as int / cs);
                assert((n - 1) * cs < SLAB_PAGE) by (nonlinear_arith)
                    requires
                        0 < n <= SLAB_PAGE as int / cs,
                        cs >= 8,
                ;
                assert(page_block_addrs(new_page as int, c as int, n).drop_last() =~= page_block_addrs(
                    new_page as int,
                    c as int,
                    n - 1,
                ));
                assert(ptr == page_block_addrs(new_page as int, c as int, n)[n - 1]);
                assert forall|i: int| 0 <= i < SLAB_CLASSES implies #[trigger] self.slabs@[i].wf(i) by {
                    if i != c {
                        assert(self.slabs@[i] == before[i]);
                    }
                }
            }
            return ptr;
        }
        self.slabs.insert(c, slab);
        proof {
            assert(self.slabs@ =~= before.update(c as int, slab));
            assert(self.view().slabs =~= o.slabs.update(c as int, self.slabs@[c as int].view()));
        }
        0
    }

    /// `size` bytes from the bump region at the first offset from the
    /// current one that is a multiple of `align` (a power of two); 0 when
    /// they do not fit in the heap.
    pub fn alloc_bump(&mut self, size: usize, align: usize) -> (p: usize)
        requires
            old(self).wf(),
            align > 0,
            align & ((align - 1) as usize) == 0,
            old(self).view().bump_offset + align - 1 <= usize::MAX,
        ensures
            final(self).wf(),
            ({
                let o = old(self).view();
                let x = (o.bump_offset + align - 1) as usize;
                let aligned = x & !((align - 1) as usize);
                if aligned + size > o.heap_size {
                    p == 0 && final(self).view() == o
                } else {
                    p == o.heap_start + aligned && final(self).view() == HeapView {
                        bump_offset: (aligned + size) as usize,
                        ..o
                    }
                }
            }),
            p != 0 ==> (p - old(self).view().heap_start) as usize & ((align - 1) as usize) == 0,
    {
        assert(self.view().bump_offset == self.bump_offset);
        let x = self.bump_offset + (align - 1);
        let aligned = x & !(align - 1);
        assert(aligned <= x) by (bit_vector)
            requires
                aligned == x & !((align - 1) as usize),
        ;
        if size > self.heap_size || aligned > self.heap_size - size {
            return 0;
        }
        let new_offset = aligned + size;
        let ptr = self.heap_start + aligned;
        self.bump_offset = new_offset;
        assert((x & !((align - 1) as usize)) & ((align - 1) as usize) == 0) by (bit_vector);
        ptr
    }

    /// Returns block `addr` to class `c`: it goes on top of the free stack,
    /// unless the stack is full.
    pub fn free_to_slab(&mut self, addr: usize, c: usize)
        requires
            old(self).wf(),
            c < SLAB_CLASSES,
        ensures
            final(self).wf(),
            final(self).view().bump_offset == old(self).view().bump_offset,
            forall|k: int|
                0 <= k < SLAB_CLASSES && k != c ==> #[trigger] final(self).view().slabs[k] == old(
                    self,
                ).view().slabs[k],
            ({
                let s = old(self).view().slabs[c as int];
                final(self).view().slabs[c as int] == if s.free.len() < MAX_BLOCKS_PER_CLASS
                    && s.free.len() < s.total_count {
                    SlabView { free: s.free.push(addr), ..s }
                } else {
                    s
                }
            }),
    {
        let ghost o = self.view();
        let ghost before = self.slabs@;
        let mut slab = self.slabs.remove(c);
        proof {
            assert(slab == before[c as int]);
            assert(slab.wf(c as int));
            assert(slab.view() == o.slabs[c as int]);
        }
        let ghost s0 = slab;
        if slab.free_count < MAX_BLOCKS_PER_CLASS && slab.free_count < slab.total_count {
            slab.free_list.set(slab.free_count, addr);
            slab.free_count = slab.free_count + 1;
        }
        proof {
            if s0.free_count < MAX_BLOCKS_PER_CLASS && s0.free_count < s0.total_count {
                assert(slab.view().free =~= s0.view().free.push(addr));
            }
        }
        self.slabs.insert(c, slab);
        proof {
            assert(self.slabs@ =~= before.update(c as int, slab));
            assert(self.view().slabs =~= o.slabs.update(c as int, self.slabs@[c as int].view()));
            assert(self.slabs@[c as int].view() == (if o.slabs[c as int].free.len() < MAX_BLOCKS_PER_CLASS
                && o.slabs[c as int].free.len() < o.slabs[c as int].total_count {
                SlabView { free: o.slabs[c as int].free.push(addr), ..o.slabs[c as int] }
            } else {
                o.slabs[c as int]
            }));
        }
    }

    /// Statistics: heap bounds, bump use, and per class the blocks in use,
    /// free, and their size.
    pub fn heap_stats(&self) -> (st: HeapStats)
        requires
            self.wf(),
        ensures
            st.heap_start == self.view().heap_start,
            st.heap_size == self.view().heap_size,
            st.bump_used == self.view().bump_offset,
            forall|i: int|
                0 <= i < SLAB_CLASSES ==> #[trigger] st.slab_used@[i] == self.view().slabs[i].total_count
                    - self.view().slabs[i].free.len() && st.slab_free@[i] == self.view().slabs[i].free.len()
                    && st.slab_block_size@[i] == self.view().slabs[i].block_size,
    {
        let mut stats = HeapStats::default();
        stats.heap_start = self.heap_start;
        stats.heap_size = self.heap_size;
        stats.bump_used = self.bump_offset;
        let mut i: usize = 0;
        while i < SLAB_CLASSES
            invariant
                self.wf(),
                i <= SLAB_CLASSES,
                stats.heap_start == self.view().heap_start,
                stats.heap_size == self.view().heap_size,
                stats.bump_used == self.view().bump_offset,
                forall|k: int|
                    0 <= k < i ==> #[trigger] stats.slab_used@[k] == self.view().slabs[k].total_count
                        - self.view().slabs[k].free.len() && stats.slab_free@[k]
                        == self.view().slabs[k].free.len() && stats.slab_block_size@[k]
                        == self.view().slabs[k].block_size,
            decreases SLAB_CLASSES - i,
        {
            let s = &self.slabs[i];
            proof {
                assert(s.wf(i as int));
                assert(self.view().slabs[i as int] == s.view());
            }
            let ghost prev = stats;
            stats.slab_used.set(i, s.total_count - s.free_count);
            stats.slab_free.set(i, s.free_count);
            stats.slab_block_size.set(i, s.block_size);
            assert forall|k: int| 0 <= k < i + 1 implies #[trigger] stats.slab_used@[k]
                == self.view().slabs[k].total_count - self.view().slabs[k].free.len()
                && stats.slab_free@[k] == self.view().slabs[k].free.len() && stats.slab_block_size@[k]
                == self.view().slabs[k].block_size by {
                if k < i {
                    assert(stats.slab_used@[k] == prev.slab_used@[k]);
                    assert(stats.slab_free@[k] == prev.slab_free@[k]);
                    assert(stats.slab_block_size@[k] == prev.slab_block_size@[k]);
                }
            }
            i = i + 1;
        }
        stats
    }
}

/// Heap statistics.
#[derive(Debug)]
pub struct HeapStats {
    pub heap_start: usize,
    pub heap_size: usize,
    pub bump_used: usize,
    pub slab_used: [usize; 10],
    pub slab_free: [usize; 10],
    pub slab_block_size: [usize; 10],
}

impl Default for HeapStats {
    fn default() -> (s: Self)
        ensures
            s.heap_start == 0,
            s.heap_size == 0,
            s.bump_used == 0,
            s.slab_used@ == Seq::new(10, |i: int| 0usize),
            s.slab_free@ == Seq::new(10, |i: int| 0usize),
            s.slab_block_size@ == Seq::new(10, |i: int| 0usize),
    {
        let s = HeapStats {
            heap_start: 0,
            heap_size: 0,
            bump_used: 0,
            slab_used: [0; 10],
            slab_free: [0; 10],
            slab_block_size: [0; 10],
        };
        assert(s.slab_used@ =~= Seq::new(10, |i: int| 0usize));
        assert(s.slab_free@ =~= Seq::new(10, |i: int| 0usize));
        assert(s.slab_block_size@ =~= Seq::new(10, |i: int| 0usize));
        s
    }
}


/// A block given back to its class (while the class has room for it) is
/// the next block that class hands out.
pub proof fn law_freed_block_reused(s: SlabView, addr: usize)
    requires
        s.free.len() < MAX_BLOCKS_PER_CLASS,
        s.free.len() < s.total_count,
    ensures
        (SlabView { free: s.free.push(addr), ..s }).free.len() > 0,
        (SlabView { free: s.free.push(addr), ..s }).free.last() == addr,
        (SlabView { free: s.free.push(addr), ..s }).free.drop_last() == s.free,
{
    assert(s.free.push(addr).drop_last() =~= s.free);
}

} // verus!
