//! Physical memory manager: one bit per 4 KiB frame, set when the frame is in use.
use vstd::prelude::*;

use crate::{KernelError, KernelResult, PhysAddr, PAGE_SIZE, PMM_BITMAP_BASE};

verus! {

/// Largest amount of physical memory the bitmap can describe.
pub const MAX_PHYS_MEMORY: u64 = 0x10_0000_0000;
/// Number of frames in `MAX_PHYS_MEMORY`.
pub const MAX_PAGES: usize = 0x100_0000;
/// Bytes in the bitmap (one bit per frame).
pub const BITMAP_SIZE: usize = 0x20_0000;
/// Physical address of the bitmap.
pub const BITMAP_BASE: usize = PMM_BITMAP_BASE;

/// Frames occupied by the bitmap itself.
pub const BITMAP_FRAMES: usize = 512;

/// Index of the frame at which the bitmap starts, for a manager based at `base`.
pub open spec fn bitmap_first_frame(base: usize) -> int {
    (BITMAP_BASE - base) as int / PAGE_SIZE as int
}

/// Whether bit `i` of the bitmap is set; bits past its end read as set.
pub open spec fn page_bit(bm: Seq<u8>, i: int) -> bool {
    if i / 8 >= bm.len() {
        true
    } else {
        (bm[i / 8] >> ((i % 8) as u8)) & 1u8 == 1u8
    }
}

/// Number of clear bits among the first `n` bits.
pub open spec fn count_free(bm: Seq<u8>, n: int) -> nat
    decreases n,
{
    if n <= 0 {
        0
    } else {
        count_free(bm, n - 1) + if page_bit(bm, n - 1) { 0nat } else { 1nat }
    }
}

/// Frames `[s, s + c)` all lie below `n` and are all free.
pub open spec fn run_free(used: Seq<bool>, s: int, c: int) -> bool {
    &&& 0 <= s
    &&& s + c <= used.len()
    &&& forall|j: int| s <= j < s + c ==> !#[trigger] used[j]
}

/// The lowest frame at which a free run of `c` frames starts.
pub open spec fn is_first_run(used: Seq<bool>, s: int, c: int) -> bool {
    &&& run_free(used, s, c)
    &&& forall|t: int| 0 <= t < s ==> !run_free(used, t, c)
}

proof fn lemma_bit_set_u8(b: u8, k: u8, j: u8)
    requires
        k < 8,
        j < 8,
    ensures
        ((b | (1u8 << k)) >> j) & 1u8 == (if j == k { 1u8 } else { (b >> j) & 1u8 }),
{
    assert(((b | (1u8 << k)) >> j) & 1u8 == (if j == k { 1u8 } else { (b >> j) & 1u8 }))
        by (bit_vector)
        requires
            k < 8,
            j < 8,
    ;
}

proof fn lemma_bit_clear_u8(b: u8, k: u8, j: u8)
    requires
        k < 8,
        j < 8,
    ensures
        ((b & !(1u8 << k)) >> j) & 1u8 == (if j == k { 0u8 } else { (b >> j) & 1u8 }),
{
    assert(((b & !(1u8 << k)) >> j) & 1u8 == (if j == k { 0u8 } else { (b >> j) & 1u8 }))
        by (bit_vector)
        requires
            k < 8,
            j < 8,
    ;
}

proof fn lemma_bit_zero_u8(j: u8)
    requires
        j < 8,
    ensures
        (0u8 >> j) & 1u8 == 0u8,
{
    assert((0u8 >> j) & 1u8 == 0u8) by (bit_vector);
}

/// Changing bit `i` only changes that bit.
proof fn lemma_one_bit_changed(bm: Seq<u8>, bm2: Seq<u8>, i: int, v: bool)
    requires
        0 <= i,
        i / 8 < bm.len(),
        bm2.len() == bm.len(),
        forall|k: int| 0 <= k < bm.len() && k != i / 8 ==> bm2[k] == bm[k],
        v ==> bm2[i / 8] == bm[i / 8] | (1u8 << ((i % 8) as u8)),
        !v ==> bm2[i / 8] == bm[i / 8] & !(1u8 << ((i % 8) as u8)),
    ensures
        forall|j: int| 0 <= j ==> #[trigger] page_bit(bm2, j) == if j == i { v } else { page_bit(bm, j) },
{
    assert forall|j: int| 0 <= j implies #[trigger] page_bit(bm2, j) == if j == i { v } else { page_bit(bm, j) } by {
        if j / 8 == i / 8 {
            let b = bm[i / 8];
            let k = (i % 8) as u8;
            let jj = (j % 8) as u8;
            if v {
                lemma_bit_set_u8(b, k, jj);
            } else {
                lemma_bit_clear_u8(b, k, jj);
            }
            if j != i {
                assert(j % 8 != i % 8);
            }
        }
    }
}

/// Setting a clear bit below `n` lowers the count of clear bits by one,
/// clearing a set bit raises it by one.
proof fn lemma_count_after_flip(bm: Seq<u8>, bm2: Seq<u8>, i: int, n: int)
    requires
        0 <= i,
        forall|j: int| 0 <= j && j != i ==> #[trigger] page_bit(bm2, j) == page_bit(bm, j),
        page_bit(bm2, i) != page_bit(bm, i),
    ensures
        n <= i ==> count_free(bm2, n) == count_free(bm, n),
        n > i && page_bit(bm2, i) ==> count_free(bm2, n) + 1 == count_free(bm, n),
        n > i && !page_bit(bm2, i) ==> count_free(bm2, n) == count_free(bm, n) + 1,
    decreases n,
{
    if n > 0 {
        lemma_count_after_flip(bm, bm2, i, n - 1);
        assert(page_bit(bm2, n - 1) == page_bit(bm, n - 1) || n - 1 == i);
    }
}

/// Bits that agree below `n` give the same count.
proof fn lemma_count_same(bm: Seq<u8>, bm2: Seq<u8>, n: int)
    requires
        forall|j: int| 0 <= j < n ==> #[trigger] page_bit(bm2, j) == page_bit(bm, j),
    ensures
        count_free(bm2, n) == count_free(bm, n),
    decreases n,
{
    if n > 0 {
        lemma_count_same(bm, bm2, n - 1);
    }
}

/// There are no more clear bits than bits.
proof fn lemma_count_le(bm: Seq<u8>, n: int)
    requires
        0 <= n,
    ensures
        count_free(bm, n) <= n,
    decreases n,
{
    if n > 0 {
        lemma_count_le(bm, n - 1);
    }
}

/// A free run of `c` bits below `n` means at least `c` clear bits below `n`.
proof fn lemma_count_ge_run(bm: Seq<u8>, s: int, c: int, n: int)
    requires
        0 <= s,
        0 <= c,
        forall|j: int| s <= j < s + c ==> !#[trigger] page_bit(bm, j),
    ensures
        count_free(bm, n) >= (if n <= s { 0 } else if n >= s + c { c } else { n - s }),
    decreases n,
{
    if n > 0 {
        lemma_count_ge_run(bm, s, c, n - 1);
    }
}

/// If every bit below `n` is set, the count is zero.
proof fn lemma_count_zero_check(bm: Seq<u8>, n: int)
    requires
        forall|j: int| 0 <= j < n ==> #[trigger] page_bit(bm, j),
    ensures
        count_free(bm, n) == 0,
    decreases n,
{
    if n > 0 {
        lemma_count_zero_check(bm, n - 1);
    }
}

/// If every bit below `n` is set, no bit is clear.
proof fn lemma_count_zero_all_used(bm: Seq<u8>, n: int, i: int)
    requires
        0 <= i < n,
        count_free(bm, n) == 0,
    ensures
        page_bit(bm, i),
    decreases n,
{
    if n - 1 != i {
        lemma_count_zero_all_used(bm, n - 1, i);
    }
}

/// All bits of an all-zero bitmap are clear.
proof fn lemma_zero_bitmap(bm: Seq<u8>, i: int)
    requires
        0 <= i,
        i / 8 < bm.len(),
        bm[i / 8] == 0,
    ensures
        !page_bit(bm, i),
{
    lemma_bit_zero_u8((i % 8) as u8);
}

proof fn lemma_count_all_free(bm: Seq<u8>, n: int)
    requires
        0 <= n,
        forall|j: int| 0 <= j < n ==> !#[trigger] page_bit(bm, j),
    ensures
        count_free(bm, n) == n,
    decreases n,
{
    if n > 0 {
        lemma_count_all_free(bm, n - 1);
    }
}

/// Frame allocator over a fixed-size bitmap.
pub struct Pmm {
    bitmap: Vec<u8>,
    total_pages: usize,
    free_page_count: usize,
    base_addr: PhysAddr,
    end_addr: PhysAddr,
}

impl View for Pmm {
    /// For each frame below `total_pages`, whether it is in use.
    type V = Seq<bool>;

    closed spec fn view(&self) -> Seq<bool> {
        Seq::new(self.total_pages as nat, |i: int| page_bit(self.bitmap@, i))
    }
}

impl Pmm {
    /// First managed physical address.
    pub closed spec fn base(&self) -> int {
        self.base_addr as int
    }

    /// One past the last managed physical address.
    pub closed spec fn end(&self) -> int {
        self.end_addr as int
    }

    /// The free-frame counter.
    pub closed spec fn free_count(&self) -> nat {
        self.free_page_count as nat
    }

    pub closed spec fn wf(&self) -> bool {
        &&& self.bitmap@.len() == BITMAP_SIZE
        &&& self.total_pages <= MAX_PAGES
        &&& self.base_addr + self.total_pages * PAGE_SIZE <= self.end_addr
        &&& self.end_addr - self.base_addr < (self.total_pages + 1) * PAGE_SIZE
        &&& self.end_addr - self.base_addr <= MAX_PHYS_MEMORY
        &&& self.end_addr + PAGE_SIZE <= usize::MAX
        &&& self.free_page_count == count_free(self.bitmap@, self.total_pages as int)
        &&& forall|j: int| self.total_pages <= j < MAX_PAGES ==> !#[trigger] page_bit(self.bitmap@, j)
    }

    /// The number of free frames, counted from the bitmap.
    pub open spec fn free_frames(used: Seq<bool>) -> nat
        decreases used.len(),
    {
        if used.len() == 0 {
            0
        } else {
            Self::free_frames(used.drop_last()) + if used.last() { 0nat } else { 1nat }
        }
    }

    proof fn lemma_free_frames(&self, n: int)
        requires
            0 <= n <= self.total_pages,
        ensures
            Self::free_frames(self@.take(n)) == count_free(self.bitmap@, n),
        decreases n,
    {
        if n > 0 {
            self.lemma_free_frames(n - 1);
            assert(self@.take(n).drop_last() =~= self@.take(n - 1));
        }
    }

    /// The invariant seen from outside: the counter counts the free frames.
    pub proof fn lemma_counter_matches(&self)
        requires
            self.wf(),
        ensures
            self.free_count() == Self::free_frames(self@),
            self@.len() <= MAX_PAGES,
            self.base() + self@.len() * PAGE_SIZE <= self.end(),
            self.end() - self.base() < (self@.len() + 1) * PAGE_SIZE,
            self.end() - self.base() <= MAX_PHYS_MEMORY,
    {
        self.lemma_free_frames(self.total_pages as int);
        assert(self@.take(self.total_pages as int) =~= self@);
    }

    /// Creates the allocator for `memory_size` bytes starting at `base_addr`,
    /// with the frames that hold the bitmap itself marked in use.
    pub fn new(base_addr: PhysAddr, memory_size: usize) -> (pmm: Self)
        requires
            base_addr <= BITMAP_BASE,
            memory_size <= MAX_PHYS_MEMORY,
            base_addr + memory_size + PAGE_SIZE <= usize::MAX,
        ensures
            pmm.wf(),
            pmm.base() == base_addr,
            pmm.end() == base_addr + memory_size,
            pmm@.len() == memory_size / PAGE_SIZE,
            forall|i: int| 0 <= i < pmm@.len() ==> #[trigger] pmm@[i] == (bitmap_first_frame(base_addr)
                <= i < bitmap_first_frame(base_addr) + BITMAP_FRAMES),
    {
        let total_pages = memory_size / PAGE_SIZE;
        let bitmap: Vec<u8> = vec![0u8; BITMAP_SIZE];
        let mut pmm = Pmm {
            bitmap,
            total_pages,
            free_page_count: total_pages,
            base_addr,
            end_addr: base_addr + memory_size,
        };
        proof {
            assert forall|j: int| 0 <= j < MAX_PAGES implies !#[trigger] page_bit(pmm.bitmap@, j) by {
                lemma_zero_bitmap(pmm.bitmap@, j);
            }
            lemma_count_all_free(pmm.bitmap@, total_pages as int);
        }
        let bitmap_start_page = (BITMAP_BASE - base_addr) / PAGE_SIZE;
        let bitmap_pages = (BITMAP_SIZE + PAGE_SIZE - 1) / PAGE_SIZE;
        let mut i = bitmap_start_page;
        while i < bitmap_start_page + bitmap_pages
            invariant
                bitmap_start_page <= i <= bitmap_start_page + bitmap_pages,
                bitmap_start_page == (BITMAP_BASE - base_addr) / PAGE_SIZE as int,
                bitmap_pages == BITMAP_SIZE / PAGE_SIZE,
                pmm.total_pages == total_pages,
                total_pages == memory_size / PAGE_SIZE,
                pmm.base_addr == base_addr,
                pmm.end_addr == base_addr + memory_size,
                memory_size <= MAX_PHYS_MEMORY,
                pmm.wf(),
                forall|j: int| 0 <= j < total_pages ==> #[trigger] page_bit(pmm.bitmap@, j) == (
                bitmap_start_page <= j < i),
            decreases bitmap_start_page + bitmap_pages - i,
        {
            if i < total_pages {
                pmm.set_bit(i);
                pmm.free_page_count = pmm.free_page_count.saturating_sub(1);
            }
            i = i + 1;
        }
        pmm
    }

    /// Index of the frame that holds physical address `addr`.
    pub open spec fn frame_of(&self, addr: int) -> int {
        (addr - self.base()) / PAGE_SIZE as int
    }

    /// What `free_page(addr)` answers.
    pub open spec fn free_outcome(&self, addr: int) -> KernelResult<()> {
        if addr < self.base() || addr >= self.end() {
            Err(KernelError::InvalidAddress)
        } else if addr % PAGE_SIZE as int != 0 {
            Err(KernelError::InvalidArgument)
        } else if !(self.frame_of(addr) < self@.len() && self@[self.frame_of(addr)]) {
            Err(KernelError::PageNotMapped)
        } else {
            Ok(())
        }
    }

    /// How many of the frames `addr, addr + 4096, ...` (at most `count`) can be
    /// released one after the other before the first refusal.
    pub open spec fn range_prefix(&self, addr: int, count: int) -> int
        decreases count,
    {
        if count <= 0 {
            0
        } else {
            let p = self.range_prefix(addr, count - 1);
            if p == count - 1 && self.free_outcome(addr + (count - 1) * PAGE_SIZE as int) is Ok {
                count
            } else {
                p
            }
        }
    }

    /// The offset (in frames) of the last address that `free_pages_range(addr, count)` computes.
    pub open spec fn last_range_frame(&self, addr: int, count: int) -> int {
        let k = self.range_prefix(addr, count);
        if k >= count {
            count - 1
        } else {
            k
        }
    }

    /// Frames `[first, last)` that `reserve_range(start, size)` marks used.
    pub open spec fn reserve_span(&self, start: int, size: int) -> (int, int) {
        if start < self.base() {
            (0, 0)
        } else {
            let first = (start - self.base()) / PAGE_SIZE as int;
            let last = if start + size > self.end() {
                self@.len() as int
            } else {
                (start + size - self.base() + PAGE_SIZE - 1) / PAGE_SIZE as int
            };
            (first, last)
        }
    }

    /// Takes the lowest free frame, marks it used and returns its address.
    /// The caller clears the frame's contents.
    pub fn alloc_page(&mut self) -> (r: KernelResult<PhysAddr>)
        requires
            old(self).wf(),
        ensures
            final(self).wf(),
            final(self).base() == old(self).base(),
            final(self).end() == old(self).end(),
            final(self)@.len() == old(self)@.len(),
            match r {
                Ok(a) => {
                    let i = old(self).frame_of(a as int);
                    &&& a == old(self).base() + i * PAGE_SIZE
                    &&& is_first_run(old(self)@, i, 1)
                    &&& final(self)@ == old(self)@.update(i, true)
                    &&& final(self).free_count() + 1 == old(self).free_count()
                },
                Err(e) => {
                    &&& e == KernelError::OutOfMemory
                    &&& forall|j: int| 0 <= j < old(self)@.len() ==> #[trigger] old(self)@[j]
                    &&& *final(self) == *old(self)
                },
            },
    {
        if self.free_page_count == 0 {
            proof {
                assert forall|j: int| 0 <= j < old(self)@.len() implies #[trigger] old(self)@[j] by {
                    lemma_count_zero_all_used(self.bitmap@, self.total_pages as int, j);
                }
            }
            return Err(KernelError::OutOfMemory);
        }
        let mut i: usize = 0;
        while i < self.total_pages
            invariant
                self.wf(),
                *self == *old(self),
                i <= self.total_pages,
                forall|j: int| 0 <= j < i ==> #[trigger] page_bit(self.bitmap@, j),
            decreases self.total_pages - i,
        {
            if !self.get_bit(i) {
                let ghost old_bm = self.bitmap@;
                proof {
                    assert forall|t: int| 0 <= t < i implies !run_free(old(self)@, t, 1) by {
                        assert(old(self)@[t]);
                    }
                    lemma_count_le(self.bitmap@, self.total_pages as int);
                }
                self.set_bit(i);
                self.free_page_count = self.free_page_count - 1;
                let addr = self.base_addr + i * PAGE_SIZE;
                proof {
                    assert(final(self)@ =~= old(self)@.update(i as int, true));
                    assert((addr - self.base_addr) / PAGE_SIZE as int == i);
                }
                return Ok(addr);
            }
            i = i + 1;
        }
        proof {
            assert forall|j: int| 0 <= j < self.total_pages implies #[trigger] page_bit(self.bitmap@, j) by {}
            lemma_count_zero_check(self.bitmap@, self.total_pages as int);
        }
        Err(KernelError::OutOfMemory)
    }

    /// Takes the lowest run of `count` consecutive free frames, marks them used
    /// and returns the address of the first. The caller clears their contents.
    pub fn alloc_pages(&mut self, count: usize) -> (r: KernelResult<PhysAddr>)
        requires
            old(self).wf(),
        ensures
            final(self).wf(),
            final(self).base() == old(self).base(),
            final(self).end() == old(self).end(),
            final(self)@.len() == old(self)@.len(),
            match r {
                Ok(a) => {
                    let s = old(self).frame_of(a as int);
                    &&& count > 0
                    &&& a == old(self).base() + s * PAGE_SIZE
                    &&& is_first_run(old(self)@, s, count as int)
                    &&& forall|j: int| 0 <= j < old(self)@.len() ==> #[trigger] final(self)@[j] == (
                    old(self)@[j] || (s <= j < s + count))
                    &&& final(self).free_count() + count == old(self).free_count()
                },
                Err(e) => {
                    &&& e == KernelError::OutOfMemory
                    &&& (count == 0 || forall|t: int| !run_free(old(self)@, t, count as int))
                    &&& *final(self) == *old(self)
                },
            },
    {
        if self.free_page_count < count {
            proof {
                assert forall|t: int| !run_free(old(self)@, t, count as int) by {
                    if run_free(old(self)@, t, count as int) {
                        assert forall|j: int| t <= j < t + count implies !#[trigger] page_bit(
                            self.bitmap@,
                            j,
                        ) by {
                            assert(!old(self)@[j]);
                        }
                        lemma_count_ge_run(self.bitmap@, t, count as int, self.total_pages as int);
                    }
                }
            }
            return Err(KernelError::OutOfMemory);
        }
        let mut found_start: Option<usize> = None;
        let mut consecutive: usize = 0;
        let mut i: usize = 0;
        while i < self.total_pages
            invariant
                self.wf(),
                *self == *old(self),
                i <= self.total_pages,
                consecutive <= i,
                count > 0 ==> consecutive < count,
                found_start is None <==> consecutive == 0,
                found_start is Some ==> found_start->0 == i - consecutive,
                forall|j: int| i - consecutive <= j < i ==> !#[trigger] old(self)@[j],
                i - consecutive > 0 ==> old(self)@[i - consecutive - 1],
                count > 0 ==> forall|t: int| 0 <= t && t + count <= i ==> !run_free(
                    old(self)@,
                    t,
                    count as int,
                ),
            decreases self.total_pages - i,
        {
            let ghost prev_cons = consecutive;
            assert(old(self)@[i as int] == page_bit(self.bitmap@, i as int));
            if !self.get_bit(i) {
                if found_start.is_none() {
                    found_start = Some(i);
                }
                consecutive = consecutive + 1;
                if consecutive == count {
                    let start = found_start.unwrap();
                    proof {
                        assert forall|t: int| 0 <= t < start implies !run_free(
                            old(self)@,
                            t,
                            count as int,
                        ) by {
                            if t + count > i + 1 && run_free(old(self)@, t, count as int) {
                                assert(!old(self)@[start - 1]);
                            }
                        }
                    }
                    let mut j = start;
                    while j < start + count
                        invariant
                            self.wf(),
                            start + count <= self.total_pages,
                            start <= j <= start + count,
                            self.total_pages == old(self).total_pages,
                            self.base_addr == old(self).base_addr,
                            self.end_addr == old(self).end_addr,
                            self.free_page_count + (j - start) == old(self).free_page_count,
                            forall|k: int| 0 <= k < self.total_pages ==> #[trigger] self@[k] == (
                            old(self)@[k] || (start <= k < j)),
                            forall|k: int| start <= k < start + count ==> !#[trigger] old(self)@[k],
                        decreases start + count - j,
                    {
                        proof {
                            assert(!self@[j as int]);
                            lemma_count_le(self.bitmap@, self.total_pages as int);
                        }
                        let ghost prev = self.bitmap@;
                        let ghost prev_view = self@;
                        self.set_bit(j);
                        self.free_page_count = self.free_page_count - 1;
                        proof {
                            assert forall|k: int| 0 <= k < self.total_pages implies #[trigger] self@[k]
                                == (old(self)@[k] || (start <= k < j + 1)) by {
                                assert(page_bit(self.bitmap@, k) == (k == j || page_bit(prev, k)));
                                assert(prev_view[k] == page_bit(prev, k));
                            }
                        }
                        j = j + 1;
                    }
                    let addr = self.base_addr + start * PAGE_SIZE;
                    proof {
                        assert((addr - self.base_addr) / PAGE_SIZE as int == start);
                    }
                    return Ok(addr);
                }
                proof {
                    assert forall|t: int| count > 0 && 0 <= t && t + count <= i + 1 implies !run_free(
                        old(self)@,
                        t,
                        count as int,
                    ) by {
                        if t + count == i + 1 && run_free(old(self)@, t, count as int) {
                            assert(t < i - prev_cons);
                            assert(!old(self)@[i - prev_cons - 1]);
                        }
                    }
                }
            } else {
                found_start = None;
                consecutive = 0;
                proof {
                    assert forall|t: int| count > 0 && 0 <= t && t + count <= i + 1 implies !run_free(
                        old(self)@,
                        t,
                        count as int,
                    ) by {
                        if t + count == i + 1 && run_free(old(self)@, t, count as int) {
                            assert(!old(self)@[i as int]);
                        }
                    }
                }
            }
            i = i + 1;
        }
        Err(KernelError::OutOfMemory)
    }

    /// Releases the frame at `addr`.
    pub fn free_page(&mut self, addr: PhysAddr) -> (r: KernelResult<()>)
        requires
            old(self).wf(),
        ensures
            final(self).wf(),
            r == old(self).free_outcome(addr as int),
            final(self).base() == old(self).base(),
            final(self).end() == old(self).end(),
            r is Ok ==> final(self)@ == old(self)@.update(old(self).frame_of(addr as int), false)
                && final(self).free_count() == old(self).free_count() + 1,
            r is Err ==> *final(self) == *old(self),
    {
        if addr < self.base_addr || addr >= self.end_addr {
            return Err(KernelError::InvalidAddress);
        }
        if addr % PAGE_SIZE != 0 {
            return Err(KernelError::InvalidArgument);
        }
        let index = (addr - self.base_addr) / PAGE_SIZE;
        proof {
            assert(index < MAX_PAGES);
            if index < self.total_pages {
                assert(self@[index as int] == page_bit(self.bitmap@, index as int));
            }
        }
        if !self.get_bit(index) {
            return Err(KernelError::PageNotMapped);
        }
        proof {
            lemma_count_le(self.bitmap@, self.total_pages as int);
        }
        let ghost prev = self.bitmap@;
        self.clear_bit(index);
        self.free_page_count = self.free_page_count + 1;
        proof {
            assert forall|k: int| 0 <= k < self.total_pages implies #[trigger] self@[k] == old(
                self,
            )@.update(index as int, false)[k] by {
                assert(page_bit(self.bitmap@, k) == (k != index && page_bit(prev, k)));
            }
            assert(final(self)@ =~= old(self)@.update(index as int, false));
        }
        Ok(())
    }

    /// Releases `count` consecutive frames starting at `addr`, stopping at the
    /// first frame that cannot be released.
    pub fn free_pages_range(&mut self, addr: PhysAddr, count: usize) -> (r: KernelResult<()>)
        requires
            old(self).wf(),
            count > 0 ==> addr + old(self).last_range_frame(addr as int, count as int) * PAGE_SIZE
                <= usize::MAX,
        ensures
            final(self).wf(),
            final(self).base() == old(self).base(),
            final(self).end() == old(self).end(),
            final(self)@.len() == old(self)@.len(),
            ({
                let k = old(self).range_prefix(addr as int, count as int);
                let f = old(self).frame_of(addr as int);
                &&& (r is Ok <==> k == count)
                &&& r is Err ==> r == old(self).free_outcome(addr + k * PAGE_SIZE)
                &&& forall|j: int| 0 <= j < old(self)@.len() ==> #[trigger] final(self)@[j] == (
                old(self)@[j] && !(f <= j < f + k))
                &&& final(self).free_count() == old(self).free_count() + k
            }),
    {
        let mut i: usize = 0;
        proof {
            old(self).lemma_prefix_bounds(addr as int, count as int);
        }
        while i < count
            invariant
                self.wf(),
                self.base() == old(self).base(),
                self.end() == old(self).end(),
                self@.len() == old(self)@.len(),
                i <= count,
                old(self).range_prefix(addr as int, i as int) == i,
                i <= old(self).range_prefix(addr as int, count as int),
                count > 0 ==> addr + old(self).last_range_frame(addr as int, count as int) * PAGE_SIZE
                    <= usize::MAX,
                forall|j: int| 0 <= j < old(self)@.len() ==> #[trigger] self@[j] == (old(self)@[j]
                    && !(old(self).frame_of(addr as int) <= j < old(self).frame_of(addr as int) + i)),
                self.free_count() == old(self).free_count() + i,
                i > 0 ==> addr >= old(self).base() && addr % PAGE_SIZE == 0,
            decreases count - i,
        {
            let a = addr + i * PAGE_SIZE;
            proof {
                self.lemma_outcome_same(*old(self), addr as int, i as int);
            }
            let res = self.free_page(a);
            match res {
                Ok(()) => {
                    proof {
                        assert(old(self).range_prefix(addr as int, i + 1) == i + 1);
                        old(self).lemma_prefix_grows(addr as int, i as int + 1, count as int);
                        assert(old(self).frame_of(a as int) == old(self).frame_of(addr as int) + i);
                    }
                    i = i + 1;
                },
                Err(e) => {
                    proof {
                        old(self).lemma_prefix_stops(addr as int, i as int, count as int);
                    }
                    return Err(e);
                },
            }
        }
        Ok(())
    }

    /// The prefix lies between zero and the range length.
    proof fn lemma_prefix_bounds(&self, addr: int, count: int)
        requires
            0 <= count,
        ensures
            0 <= self.range_prefix(addr, count) <= count,
        decreases count,
    {
        if count > 0 {
            self.lemma_prefix_bounds(addr, count - 1);
        }
    }

    /// Once the prefix reaches `n`, it reaches `n` for every longer range as far as it continues.
    proof fn lemma_prefix_grows(&self, addr: int, n: int, count: int)
        requires
            0 <= n <= count,
            self.range_prefix(addr, n) == n,
        ensures
            self.range_prefix(addr, count) >= n,
        decreases count - n,
    {
        if count > n {
            self.lemma_prefix_grows(addr, n, count - 1);
        }
    }

    /// A refusal at `k` fixes the prefix at `k` for every longer range.
    proof fn lemma_prefix_stops(&self, addr: int, k: int, count: int)
        requires
            0 <= k < count,
            self.range_prefix(addr, k) == k,
            self.free_outcome(addr + k * PAGE_SIZE as int) is Err,
        ensures
            self.range_prefix(addr, count) == k,
        decreases count - k,
    {
        if count > k + 1 {
            self.lemma_prefix_stops(addr, k, count - 1);
        }
    }

    /// While the first `i` frames of the range have been released, the outcome for
    /// frame `i` is the same as on the starting state.
    proof fn lemma_outcome_same(&self, orig: Pmm, addr: int, i: int)
        requires
            0 <= i,
            self.base() == orig.base(),
            self.end() == orig.end(),
            self@.len() == orig@.len(),
            i > 0 ==> addr >= orig.base() && addr % PAGE_SIZE as int == 0,
            forall|j: int| 0 <= j < orig@.len() ==> #[trigger] self@[j] == (orig@[j] && !(
            orig.frame_of(addr) <= j < orig.frame_of(addr) + i)),
        ensures
            self.free_outcome(addr + i * PAGE_SIZE as int) == orig.free_outcome(addr + i * PAGE_SIZE as int),
    {
        let a = addr + i * PAGE_SIZE as int;
        if a >= orig.base() && a < orig.end() && a % PAGE_SIZE as int == 0 {
            if i > 0 {
                assert(orig.frame_of(a) == orig.frame_of(addr) + i);
            }
            let f = orig.frame_of(a);
            if f < orig@.len() {
                assert(self@[f] == orig@[f]);
            }
        }
    }

    /// Marks every frame of `[start, start + size)` that lies in the managed range as used.
    pub fn reserve_range(&mut self, start: PhysAddr, size: usize)
        requires
            old(self).wf(),
            start >= old(self).base() ==> start + size <= usize::MAX,
        ensures
            final(self).wf(),
            final(self).base() == old(self).base(),
            final(self).end() == old(self).end(),
            final(self)@.len() == old(self)@.len(),
            forall|j: int| 0 <= j < old(self)@.len() ==> #[trigger] final(self)@[j] == (old(self)@[j]
                || (old(self).reserve_span(start as int, size as int).0 <= j < old(self).reserve_span(
                start as int,
                size as int,
            ).1)),
    {
        if start < self.base_addr {
            return;
        }
        let start_page = (start - self.base_addr) / PAGE_SIZE;
        let end_addr = start + size;
        let end_page = if end_addr > self.end_addr {
            self.total_pages
        } else {
            (end_addr - self.base_addr + PAGE_SIZE - 1) / PAGE_SIZE
        };
        let mut i = start_page;
        while i < end_page
            invariant
                self.wf(),
                self.base() == old(self).base(),
                self.end() == old(self).end(),
                self.total_pages == old(self).total_pages,
                start_page <= i,
                i <= end_page || end_page < start_page,
                forall|j: int| 0 <= j < self.total_pages ==> #[trigger] self@[j] == (old(self)@[j]
                    || (start_page <= j < i)),
            decreases end_page - i,
        {
            if i < self.total_pages && !self.get_bit(i) {
                proof {
                    lemma_count_le(self.bitmap@, self.total_pages as int);
                }
                let ghost prev = self.bitmap@;
                let ghost prev_view = self@;
                self.set_bit(i);
                self.free_page_count = self.free_page_count.saturating_sub(1);
                proof {
                    assert forall|k: int| 0 <= k < self.total_pages implies #[trigger] self@[k] == (
                    old(self)@[k] || (start_page <= k < i + 1)) by {
                        assert(page_bit(self.bitmap@, k) == (k == i || page_bit(prev, k)));
                        assert(prev_view[k] == page_bit(prev, k));
                    }
                }
            } else {
                proof {
                    if i < self.total_pages {
                        assert(self@[i as int] == page_bit(self.bitmap@, i as int));
                    }
                }
            }
            i = i + 1;
        }
    }

    pub fn total_pages(&self) -> (r: usize)
        requires
            self.wf(),
        ensures
            r == self@.len(),
    {
        self.total_pages
    }

    pub fn free_page_count(&self) -> (r: usize)
        requires
            self.wf(),
        ensures
            r == self.free_count(),
    {
        self.free_page_count
    }

    pub fn used_pages(&self) -> (r: usize)
        requires
            self.wf(),
        ensures
            r == self@.len() - self.free_count(),
    {
        proof {
            lemma_count_le(self.bitmap@, self.total_pages as int);
        }
        self.total_pages - self.free_page_count
    }

    pub fn free_memory(&self) -> (r: usize)
        requires
            self.wf(),
        ensures
            r == self.free_count() * PAGE_SIZE,
    {
        proof {
            lemma_count_le(self.bitmap@, self.total_pages as int);
        }
        self.free_page_count * PAGE_SIZE
    }

    pub fn used_memory(&self) -> (r: usize)
        requires
            self.wf(),
        ensures
            r == (self@.len() - self.free_count()) * PAGE_SIZE,
    {
        self.used_pages() * PAGE_SIZE
    }

    /// Marks frame `index` used; keeps the counter in step when the frame was free.
    fn set_bit(&mut self, index: usize)
        requires
            old(self).wf(),
            index < old(self).total_pages,
            !page_bit(old(self).bitmap@, index as int),
        ensures
            forall|j: int| 0 <= j ==> #[trigger] page_bit(final(self).bitmap@, j) == (j == index
                || page_bit(old(self).bitmap@, j)),
            final(self).bitmap@.len() == old(self).bitmap@.len(),
            count_free(final(self).bitmap@, old(self).total_pages as int) + 1 == count_free(
                old(self).bitmap@,
                old(self).total_pages as int,
            ),
            final(self).total_pages == old(self).total_pages,
            final(self).free_page_count == old(self).free_page_count,
            final(self).base_addr == old(self).base_addr,
            final(self).end_addr == old(self).end_addr,
    {
        let byte = index / 8;
        let bit = index % 8;
        if byte < self.bitmap.len() {
            let ghost bm = self.bitmap@;
            let nb = self.bitmap[byte] | (1u8 << (bit as u8));
            self.bitmap.set(byte, nb);
            proof {
                lemma_one_bit_changed(bm, self.bitmap@, index as int, true);
                lemma_count_after_flip(bm, self.bitmap@, index as int, self.total_pages as int);
            }
        }
    }

    /// Marks frame `index` free.
    fn clear_bit(&mut self, index: usize)
        requires
            old(self).wf(),
            index < old(self).total_pages,
            page_bit(old(self).bitmap@, index as int),
        ensures
            forall|j: int| 0 <= j ==> #[trigger] page_bit(final(self).bitmap@, j) == (j != index
                && page_bit(old(self).bitmap@, j)),
            final(self).bitmap@.len() == old(self).bitmap@.len(),
            count_free(final(self).bitmap@, old(self).total_pages as int) == count_free(
                old(self).bitmap@,
                old(self).total_pages as int,
            ) + 1,
            final(self).total_pages == old(self).total_pages,
            final(self).free_page_count == old(self).free_page_count,
            final(self).base_addr == old(self).base_addr,
            final(self).end_addr == old(self).end_addr,
    {
        let byte = index / 8;
        let bit = index % 8;
        if byte < self.bitmap.len() {
            let ghost bm = self.bitmap@;
            let nb = self.bitmap[byte] & !(1u8 << (bit as u8));
            self.bitmap.set(byte, nb);
            proof {
                lemma_one_bit_changed(bm, self.bitmap@, index as int, false);
                lemma_count_after_flip(bm, self.bitmap@, index as int, self.total_pages as int);
            }
        }
    }

    /// Whether frame `index` is marked used (frames past the bitmap read as used).
    fn get_bit(&self, index: usize) -> (r: bool)
        requires
            self.wf(),
        ensures
            r == page_bit(self.bitmap@, index as int),
    {
        let byte = index / 8;
        let bit = index % 8;
        if byte >= self.bitmap.len() {
            return true;
        }
        (self.bitmap[byte] >> (bit as u8)) & 1 == 1
    }
}


/// Freeing the frame an allocation gave back makes the frames exactly what
/// they were before the allocation: `before` is the allocator before
/// `alloc_page` took frame `i`, `after` the allocator it left. (Frees check
/// the address's alignment on its own, so this holds for an allocator whose
/// base is page aligned.)
pub proof fn law_free_undoes_alloc(before: Pmm, after: Pmm, i: int)
    requires
        before.wf(),
        before.base() % PAGE_SIZE as int == 0,
        0 <= i < before@.len(),
        !before@[i],
        after.base() == before.base(),
        after.end() == before.end(),
        after@ == before@.update(i, true),
    ensures
        after.free_outcome(before.base() + i * PAGE_SIZE) is Ok,
        after@.update(after.frame_of(before.base() + i * PAGE_SIZE), false) == before@,
{
    before.lemma_counter_matches();
    let a = before.base() + i * PAGE_SIZE;
    assert(a - before.base() == i * PAGE_SIZE);
    assert((i * PAGE_SIZE) / (PAGE_SIZE as int) == i) by (nonlinear_arith);
    assert((i * PAGE_SIZE) % (PAGE_SIZE as int) == 0) by (nonlinear_arith);
    assert((before.base() + i * PAGE_SIZE) % (PAGE_SIZE as int) == 0) by (nonlinear_arith)
        requires
            before.base() % (PAGE_SIZE as int) == 0,
    ;
    assert(i * PAGE_SIZE + PAGE_SIZE <= before@.len() * PAGE_SIZE) by (nonlinear_arith)
        requires
            i < before@.len(),
    ;
    assert(after.frame_of(a) == i);
    assert(after@.update(i, false) =~= before@);
}

/// A frame just freed cannot be freed again: `after` is the allocator that
/// `free_page(a)` left when it succeeded on `before`.
pub proof fn law_double_free_refused(before: Pmm, after: Pmm, a: int)
    requires
        before.wf(),
        before.free_outcome(a) is Ok,
        after.base() == before.base(),
        after.end() == before.end(),
        after@ == before@.update(before.frame_of(a), false),
    ensures
        after.free_outcome(a) == Err::<(), KernelError>(KernelError::PageNotMapped),
{
}

} // verus!
