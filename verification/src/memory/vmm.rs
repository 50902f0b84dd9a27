//! Virtual memory manager: four-level x86_64 page tables.
//!
//! The page tables are held in a store keyed by the physical address of each
//! table (512 entries each); an address with no table reads as all zeros, as
//! cleared memory does. New tables come from a fixed pool of frames.
use vstd::prelude::*;
use vstd::hash_map::HashMapWithView;

use crate::{KernelError, KernelResult, PhysAddr, VirtAddr, PAGE_SIZE, VMM_PAGES_BASE};

verus! {

broadcast use vstd::std_specs::hash::group_hash_axioms;

pub const PAGE_PRESENT: u64 = 1;
pub const PAGE_WRITABLE: u64 = 2;
pub const PAGE_USER_ACCESSIBLE: u64 = 4;
pub const PAGE_WRITE_THROUGH: u64 = 8;
pub const PAGE_NO_CACHE: u64 = 0x10;
pub const PAGE_ACCESSED: u64 = 0x20;
pub const PAGE_DIRTY: u64 = 0x40;
pub const PAGE_HUGE_PAGE: u64 = 0x80;
pub const PAGE_GLOBAL: u64 = 0x100;
pub const PAGE_NO_EXECUTE: u64 = 0x8000_0000_0000_0000;
/// Bits of an entry that hold the physical address of a frame or table.
pub const ADDR_MASK: u64 = 0x000F_FFFF_FFFF_F000;
/// End of the pool that new page tables are taken from.
pub const VMM_PAGES_END: usize = 0x800000;

/// Attribute bits of a page-table entry.
#[derive(Debug, Clone, Copy, PartialEq, Eq, Structural)]
pub struct PageFlags {
    pub bits: u64,
}

impl PageFlags {
    pub fn from_bits_retain(bits: u64) -> (r: Self)
        ensures
            r.bits == bits,
    {
        PageFlags { bits }
    }

    pub fn empty() -> (r: Self)
        ensures
            r.bits == 0,
    {
        PageFlags { bits: 0 }
    }

    pub fn bits(&self) -> (r: u64)
        ensures
            r == self.bits,
    {
        self.bits
    }

    pub fn contains(&self, other: PageFlags) -> (r: bool)
        ensures
            r == (self.bits & other.bits == other.bits),
    {
        self.bits & other.bits == other.bits
    }

    pub fn union(self, other: PageFlags) -> (r: PageFlags)
        ensures
            r.bits == self.bits | other.bits,
    {
        PageFlags { bits: self.bits | other.bits }
    }
}

impl Default for PageFlags {
    /// Present and writable.
    fn default() -> (r: Self)
        ensures
            r.bits == PAGE_PRESENT | PAGE_WRITABLE,
    {
        PageFlags { bits: PAGE_PRESENT | PAGE_WRITABLE }
    }
}

/// The page-table memory seen as plain values.
pub struct VmmView {
    pub pml4: usize,
    pub tables: Map<usize, Seq<u64>>,
    pub next_table: usize,
}

/// The table store that a list of (address, entries) pairs describes; a
/// later pair for an address replaces an earlier one.
pub open spec fn tables_of(s: Seq<(usize, Seq<u64>)>) -> Map<usize, Seq<u64>>
    decreases s.len(),
{
    if s.len() == 0 {
        Map::empty()
    } else {
        tables_of(s.drop_last()).insert(s.last().0, s.last().1)
    }
}

/// Entry `i` of the table at `t` (zero where no table is stored).
pub open spec fn ent(tables: Map<usize, Seq<u64>>, t: usize, i: int) -> u64 {
    if tables.contains_key(t) && 0 <= i < tables[t].len() {
        tables[t][i]
    } else {
        0
    }
}

pub open spec fn zero_table() -> Seq<u64> {
    Seq::new(512, |i: int| 0u64)
}

/// The store after writing `v` to entry `i` of the table at `t`.
pub open spec fn set_ent(tables: Map<usize, Seq<u64>>, t: usize, i: int, v: u64) -> Map<usize, Seq<u64>> {
    let old_t = if tables.contains_key(t) {
        tables[t]
    } else {
        zero_table()
    };
    tables.insert(t, old_t.update(i, v))
}

pub open spec fn present(e: u64) -> bool {
    e & PAGE_PRESENT != 0
}

pub open spec fn huge(e: u64) -> bool {
    e & PAGE_HUGE_PAGE != 0
}

/// The frame or table address held by an entry.
pub open spec fn frame(e: u64) -> u64 {
    e & ADDR_MASK
}

/// Index into the table at the level whose entries cover `2^shift` bytes.
pub open spec fn table_index(virt: usize, shift: u64) -> int {
    ((virt as u64 >> shift) & 0x1FF) as int
}

/// The entry written when a missing intermediate table at `a` is linked in.
pub open spec fn link_entry(a: usize) -> u64 {
    a as u64 | PAGE_PRESENT | PAGE_WRITABLE
}

/// Makes sure entry `i` of table `t` points to a table, taking a fresh table
/// from the pool when it does not; `None` when the pool is exhausted.
pub open spec fn ensure_level(v: VmmView, t: usize, i: int) -> Option<VmmView> {
    if present(ent(v.tables, t, i)) {
        Some(v)
    } else if v.next_table + PAGE_SIZE > VMM_PAGES_END {
        None
    } else {
        let a = v.next_table;
        let tables = v.tables.insert(a, zero_table());
        Some(VmmView {
            tables: set_ent(tables, t, i, link_entry(a)),
            next_table: (a + PAGE_SIZE) as usize,
            ..v
        })
    }
}

/// The table that entry `i` of table `t` points to.
pub open spec fn next_table(v: VmmView, t: usize, i: int) -> usize {
    frame(ent(v.tables, t, i)) as usize
}

/// The result and state of `map_page`.
pub open spec fn map_spec(v: VmmView, virt: usize, phys: usize, flags: u64) -> (VmmView, KernelResult<()>) {
    if virt % PAGE_SIZE != 0 || phys % PAGE_SIZE != 0 {
        (v, Err(KernelError::InvalidArgument))
    } else {
        let i4 = table_index(virt, 39);
        let i3 = table_index(virt, 30);
        let i2 = table_index(virt, 21);
        let i1 = table_index(virt, 12);
        match ensure_level(v, v.pml4, i4) {
            None => (v, Err(KernelError::OutOfMemory)),
            Some(v1) => {
                let pdpt = next_table(v1, v1.pml4, i4);
                match ensure_level(v1, pdpt, i3) {
                    None => (v1, Err(KernelError::OutOfMemory)),
                    Some(v2) => {
                        let pd = next_table(v2, pdpt, i3);
                        match ensure_level(v2, pd, i2) {
                            None => (v2, Err(KernelError::OutOfMemory)),
                            Some(v3) => {
                                let pt = next_table(v3, pd, i2);
                                if present(ent(v3.tables, pt, i1)) {
                                    (v3, Err(KernelError::PageAlreadyMapped))
                                } else {
                                    (
                                        VmmView { tables: set_ent(v3.tables, pt, i1, phys as u64 | flags), ..v3 },
                                        Ok(()),
                                    )
                                }
                            },
                        }
                    },
                }
            },
        }
    }
}

/// The last-level table and index for `virt`, following present entries only.
pub open spec fn leaf_slot(v: VmmView, virt: usize) -> Option<(usize, int)> {
    let i4 = table_index(virt, 39);
    let i3 = table_index(virt, 30);
    let i2 = table_index(virt, 21);
    let i1 = table_index(virt, 12);
    if !present(ent(v.tables, v.pml4, i4)) {
        None
    } else {
        let pdpt = next_table(v, v.pml4, i4);
        if !present(ent(v.tables, pdpt, i3)) {
            None
        } else {
            let pd = next_table(v, pdpt, i3);
            if !present(ent(v.tables, pd, i2)) {
                None
            } else {
                Some((next_table(v, pd, i2), i1))
            }
        }
    }
}

/// The last-level entry for `virt`, if the walk reaches one.
pub open spec fn leaf_entry(v: VmmView, virt: usize) -> Option<u64> {
    match leaf_slot(v, virt) {
        Some((pt, i)) => Some(ent(v.tables, pt, i)),
        None => None,
    }
}

/// The physical address `virt` translates to (1 GiB and 2 MiB pages included).
pub open spec fn translate_spec(v: VmmView, virt: usize) -> Option<PhysAddr> {
    let i4 = table_index(virt, 39);
    let i3 = table_index(virt, 30);
    let i2 = table_index(virt, 21);
    let i1 = table_index(virt, 12);
    let e4 = ent(v.tables, v.pml4, i4);
    if !present(e4) {
        None
    } else {
        let pdpt = frame(e4) as usize;
        let e3 = ent(v.tables, pdpt, i3);
        if huge(e3) && present(e3) {
            Some((frame(e3) + (virt as u64 & 0x3FFF_FFFF)) as usize)
        } else if !present(e3) {
            None
        } else {
            let pd = frame(e3) as usize;
            let e2 = ent(v.tables, pd, i2);
            if huge(e2) && present(e2) {
                Some((frame(e2) + (virt as u64 & 0x1F_FFFF)) as usize)
            } else if !present(e2) {
                None
            } else {
                let e1 = ent(v.tables, frame(e2) as usize, i1);
                if !present(e1) {
                    None
                } else {
                    Some((frame(e1) + (virt as u64 & 0xFFF)) as usize)
                }
            }
        }
    }
}

/// The walk for `virt` goes through no 1 GiB or 2 MiB page entry.
pub open spec fn no_huge_on_path(v: VmmView, virt: usize) -> bool {
    let e4 = ent(v.tables, v.pml4, table_index(virt, 39));
    let e3 = ent(v.tables, frame(e4) as usize, table_index(virt, 30));
    let e2 = ent(v.tables, frame(e3) as usize, table_index(virt, 21));
    !huge(e3) && !huge(e2)
}

/// The result and state of `unmap_page`.
pub open spec fn unmap_spec(v: VmmView, virt: usize) -> (VmmView, KernelResult<PhysAddr>) {
    if virt % PAGE_SIZE != 0 {
        (v, Err(KernelError::InvalidArgument))
    } else {
        match leaf_slot(v, virt) {
            None => (v, Err(KernelError::PageNotMapped)),
            Some((pt, i)) => {
                let e = ent(v.tables, pt, i);
                if !present(e) {
                    (v, Err(KernelError::PageNotMapped))
                } else {
                    (VmmView { tables: set_ent(v.tables, pt, i, 0), ..v }, Ok(frame(e) as usize))
                }
            },
        }
    }
}

/// The result and state of `update_flags`.
pub open spec fn update_flags_spec(v: VmmView, virt: usize, flags: u64) -> (VmmView, KernelResult<()>) {
    if virt % PAGE_SIZE != 0 {
        (v, Err(KernelError::InvalidArgument))
    } else {
        match leaf_slot(v, virt) {
            None => (v, Err(KernelError::PageNotMapped)),
            Some((pt, i)) => {
                let e = ent(v.tables, pt, i);
                if !present(e) {
                    (v, Err(KernelError::PageNotMapped))
                } else {
                    (VmmView { tables: set_ent(v.tables, pt, i, frame(e) | flags), ..v }, Ok(()))
                }
            },
        }
    }
}

/// `identity_map` from page `addr` on: the state, the result, and whether the
/// loop would step past the largest address.
pub open spec fn identity_spec(v: VmmView, addr: usize, end: usize, flags: u64) -> (VmmView, KernelResult<()>, bool)
    decreases usize::MAX - addr,
{
    if addr >= end {
        (v, Ok(()), false)
    } else {
        let (v1, r) = map_spec(v, addr, addr, flags);
        if r is Err {
            (v1, r, false)
        } else if addr + PAGE_SIZE > usize::MAX {
            (v1, r, true)
        } else {
            identity_spec(v1, (addr + PAGE_SIZE) as usize, end, flags)
        }
    }
}


/// Every stored table has 512 entries.
pub open spec fn tables_wf(v: VmmView) -> bool {
    forall|t: usize| #[trigger] v.tables.contains_key(t) ==> v.tables[t].len() == 512
}

/// `a` is not one of the pool frames still to be handed out.
pub open spec fn outside_pool(v: VmmView, a: usize) -> bool {
    a < v.next_table || a >= VMM_PAGES_END
}

/// The tables on the walk for `virt` that exist already are distinct and none
/// of them is a pool frame still to be handed out.
pub open spec fn path_separate(v: VmmView, virt: usize) -> bool {
    let e4 = ent(v.tables, v.pml4, table_index(virt, 39));
    let pdpt = frame(e4) as usize;
    let e3 = ent(v.tables, pdpt, table_index(virt, 30));
    let pd = frame(e3) as usize;
    let e2 = ent(v.tables, pd, table_index(virt, 21));
    let pt = frame(e2) as usize;
    &&& outside_pool(v, v.pml4)
    &&& present(e4) ==> outside_pool(v, pdpt) && pdpt != v.pml4
    &&& present(e4) && present(e3) ==> outside_pool(v, pd) && pd != v.pml4 && pd != pdpt
    &&& present(e4) && present(e3) && present(e2) ==> outside_pool(v, pt) && pt != v.pml4 && pt != pdpt
        && pt != pd
}

proof fn lemma_ent_set(tables: Map<usize, Seq<u64>>, t: usize, i: int, x: u64, t2: usize, i2: int)
    requires
        forall|k: usize| #[trigger] tables.contains_key(k) ==> tables[k].len() == 512,
        0 <= i < 512,
        0 <= i2 < 512,
    ensures
        ent(set_ent(tables, t, i, x), t2, i2) == if t2 == t && i2 == i { x } else { ent(tables, t2, i2) },
{
}

proof fn lemma_ent_zero(tables: Map<usize, Seq<u64>>, a: usize, t2: usize, i2: int)
    ensures
        ent(tables.insert(a, zero_table()), t2, i2) == if t2 == a { 0 } else { ent(tables, t2, i2) },
{
}

proof fn lemma_link_entry(a: usize)
    requires
        a < VMM_PAGES_END,
        a % 4096 == 0,
    ensures
        present(link_entry(a)),
        !huge(link_entry(a)),
        frame(link_entry(a)) as usize == a,
{
    let x = a as u64;
    assert(x < 0x800000u64 && x % 4096 == 0 ==> (x | 1u64 | 2u64) & 1u64 != 0 && (x | 1u64 | 2u64) & 0x80u64 == 0
        && (x | 1u64 | 2u64) & 0x000F_FFFF_FFFF_F000u64 == x) by (bit_vector);
}

proof fn lemma_leaf_word(phys: usize, flags: u64)
    requires
        phys % 4096 == 0,
        (phys as u64) < 0x10_0000_0000_0000,
        flags & ADDR_MASK == 0,
        flags & PAGE_PRESENT != 0,
    ensures
        present(phys as u64 | flags),
        frame(phys as u64 | flags) == phys as u64,
{
    let x = phys as u64;
    assert(x % 4096 == 0 && x < 0x10_0000_0000_0000u64 && flags & 0x000F_FFFF_FFFF_F000u64 == 0 && flags & 1u64
        != 0 ==> (x | flags) & 1u64 != 0 && (x | flags) & 0x000F_FFFF_FFFF_F000u64 == x) by (bit_vector);
}

proof fn lemma_same_indices(virt: usize, off: usize)
    requires
        virt % 4096 == 0,
        off < 4096,
        virt + off <= usize::MAX,
    ensures
        table_index((virt + off) as usize, 39) == table_index(virt, 39),
        table_index((virt + off) as usize, 30) == table_index(virt, 30),
        table_index((virt + off) as usize, 21) == table_index(virt, 21),
        table_index((virt + off) as usize, 12) == table_index(virt, 12),
        ((virt + off) as usize) as u64 & 0xFFF == off as u64,
{
    let x = virt as u64;
    let o = off as u64;
    let y = ((virt + off) as usize) as u64;
    assert(y == x + o);
    assert((y >> 39u64) & 0x1FF == (x >> 39u64) & 0x1FF && (y >> 30u64) & 0x1FF == (x >> 30u64) & 0x1FF && (y
        >> 21u64) & 0x1FF == (x >> 21u64) & 0x1FF && (y >> 12u64) & 0x1FF == (x >> 12u64) & 0x1FF && y & 0xFFF
        == o) by (bit_vector)
        requires
            y == x + o,
            x % 4096 == 0,
            o < 4096,
    ;
}

/// One step of `map_page`: after linking entry `i` of `t`, that entry points to
/// a table; entries of other tables on the path are untouched.
proof fn lemma_ensure_step(v: VmmView, t: usize, i: int, others: Set<usize>)
    requires
        tables_wf(v),
        0 <= i < 512,
        ensure_level(v, t, i) is Some,
        v.next_table % 4096 == 0,
        forall|o: usize| #[trigger] others.contains(o) ==> outside_pool(v, o) && o != t,
        outside_pool(v, t),
    ensures
        ({
            let w = ensure_level(v, t, i)->0;
            &&& tables_wf(w)
            &&& w.pml4 == v.pml4
            &&& w.next_table % 4096 == 0
            &&& v.next_table <= w.next_table
            &&& present(ent(w.tables, t, i))
            &&& present(ent(v.tables, t, i)) ==> w == v
            &&& !present(ent(v.tables, t, i)) ==> {
                &&& frame(ent(w.tables, t, i)) as usize == v.next_table
                &&& !huge(ent(w.tables, t, i))
                &&& w.next_table == v.next_table + 4096
                &&& forall|j: int| 0 <= j < 512 ==> ent(w.tables, v.next_table, j) == 0
            }
            &&& forall|o: usize, j: int| #[trigger] others.contains(o) && 0 <= j < 512 ==> ent(w.tables, o, j)
                == #[trigger] ent(v.tables, o, j)
            &&& forall|j: int| 0 <= j < 512 && j != i ==> ent(w.tables, t, j) == ent(v.tables, t, j)
        }),
{
    if !present(ent(v.tables, t, i)) {
        let a = v.next_table;
        lemma_link_entry(a);
        let tables = v.tables.insert(a, zero_table());
        assert forall|j: int| 0 <= j < 512 implies ent(ensure_level(v, t, i)->0.tables, a, j) == 0 by {
            lemma_ent_zero(v.tables, a, a, j);
            lemma_ent_set(tables, t, i, link_entry(a), a, j);
        }
        assert forall|o: usize, j: int| #[trigger] others.contains(o) && 0 <= j < 512 implies ent(
            ensure_level(v, t, i)->0.tables,
            o,
            j,
        ) == #[trigger] ent(v.tables, o, j) by {
            lemma_ent_zero(v.tables, a, o, j);
            lemma_ent_set(tables, t, i, link_entry(a), o, j);
        }
        assert forall|j: int| 0 <= j < 512 && j != i implies ent(ensure_level(v, t, i)->0.tables, t, j) == ent(
            v.tables,
            t,
            j,
        ) by {
            lemma_ent_zero(v.tables, a, t, j);
            lemma_ent_set(tables, t, i, link_entry(a), t, j);
        }
        lemma_ent_zero(v.tables, a, t, i);
        lemma_ent_set(tables, t, i, link_entry(a), t, i);
    }
}


/// Mapping a page makes the walk for its address end at the new entry.
#[verifier::rlimit(50)]
proof fn lemma_map_walk(v: VmmView, virt: usize, phys: usize, flags: u64)
    requires
        tables_wf(v),
        v.next_table % 4096 == 0,
        path_separate(v, virt),
        map_spec(v, virt, phys, flags).1 is Ok,
    ensures
        leaf_entry(map_spec(v, virt, phys, flags).0, virt) == Some(phys as u64 | flags),
        tables_wf(map_spec(v, virt, phys, flags).0),
{
    let i4 = table_index(virt, 39);
    let i3 = table_index(virt, 30);
    let i2 = table_index(virt, 21);
    let i1 = table_index(virt, 12);
    lemma_index_bits(virt, 39);
    lemma_index_bits(virt, 30);
    lemma_index_bits(virt, 21);
    lemma_index_bits(virt, 12);
    assert(!present(0u64)) by (bit_vector);
    let pml4 = v.pml4;
    let e4 = ent(v.tables, pml4, i4);
    let op = frame(e4) as usize;
    let e3 = ent(v.tables, op, i3);
    let od = frame(e3) as usize;
    let e2 = ent(v.tables, od, i2);
    let ot = frame(e2) as usize;

    lemma_ensure_step(v, pml4, i4, Set::empty());
    let v1 = ensure_level(v, pml4, i4)->0;
    let pdpt = next_table(v1, pml4, i4);
    assert(pdpt != pml4);
    assert(outside_pool(v1, pml4));
    assert(outside_pool(v1, pdpt));
    assert(present(e4) ==> pdpt == op);
    assert(!present(e4) ==> forall|j: int| 0 <= j < 512 ==> ent(v1.tables, pdpt, j) == 0);

    let s2 = Set::empty().insert(pml4);
    lemma_ensure_step(v1, pdpt, i3, s2);
    let v2 = ensure_level(v1, pdpt, i3)->0;
    assert(s2.contains(pml4));
    assert(ent(v2.tables, pml4, i4) == ent(v1.tables, pml4, i4));
    let pd = next_table(v2, pdpt, i3);
    if present(ent(v1.tables, pdpt, i3)) {
        assert(present(e4));
        assert(v1 == v);
        assert(ent(v1.tables, pdpt, i3) == e3);
        assert(pd == od);
    } else {
        assert(pd == v1.next_table);
        assert(v1.next_table + 4096 <= VMM_PAGES_END);
    }
    assert(present(e4) && present(e3) ==> pd == od);
    assert(pd != pml4);
    assert(pd != pdpt);
    assert(outside_pool(v2, pml4));
    assert(outside_pool(v2, pdpt));
    assert(outside_pool(v2, pd));

    let s3 = Set::empty().insert(pml4).insert(pdpt);
    lemma_ensure_step(v2, pd, i2, s3);
    let v3 = ensure_level(v2, pd, i2)->0;
    assert(s3.contains(pml4) && s3.contains(pdpt));
    assert(ent(v3.tables, pml4, i4) == ent(v1.tables, pml4, i4));
    assert(ent(v3.tables, pdpt, i3) == ent(v2.tables, pdpt, i3));
    let pt = next_table(v3, pd, i2);
    if present(ent(v2.tables, pd, i2)) {
        assert(present(e4) && present(e3));
        assert(v2 == v);
        assert(pt == ot);
    } else {
        assert(pt == v2.next_table);
        assert(v2.next_table + 4096 <= VMM_PAGES_END);
    }
    assert(present(e4) && present(e3) && present(e2) ==> pt == ot);
    assert(pt != pml4);
    assert(pt != pdpt);
    assert(pt != pd);

    let fin = VmmView { tables: set_ent(v3.tables, pt, i1, phys as u64 | flags), ..v3 };
    lemma_ent_set(v3.tables, pt, i1, phys as u64 | flags, pml4, i4);
    lemma_ent_set(v3.tables, pt, i1, phys as u64 | flags, pdpt, i3);
    lemma_ent_set(v3.tables, pt, i1, phys as u64 | flags, pd, i2);
    lemma_ent_set(v3.tables, pt, i1, phys as u64 | flags, pt, i1);
    assert(map_spec(v, virt, phys, flags).0 == fin);
    assert(leaf_slot(fin, virt) == Some((pt, i1)));
}

/// Following present entries through no large page, the translation of an
/// address is the frame of its last-level entry plus the offset in the page.
proof fn lemma_translate_leaf(v: VmmView, virt: usize)
    requires
        no_huge_on_path(v, virt),
    ensures
        translate_spec(v, virt) == match leaf_entry(v, virt) {
            Some(e) => if present(e) {
                Some((frame(e) + (virt as u64 & 0xFFF)) as usize)
            } else {
                None::<PhysAddr>
            },
            None => None::<PhysAddr>,
        },
{
}

/// The PML4 entry on the walk for `virt`.
pub open spec fn pml4_entry(v: VmmView, virt: usize) -> u64 {
    ent(v.tables, v.pml4, table_index(virt, 39))
}

/// The PDPT entry on the walk for `virt`.
pub open spec fn pdpt_entry(v: VmmView, virt: usize) -> u64 {
    ent(v.tables, frame(pml4_entry(v, virt)) as usize, table_index(virt, 30))
}

/// The page-directory entry on the walk for `virt`.
pub open spec fn pd_entry(v: VmmView, virt: usize) -> u64 {
    ent(v.tables, frame(pdpt_entry(v, virt)) as usize, table_index(virt, 21))
}

/// The page-table entry on the walk for `virt`.
pub open spec fn pt_entry(v: VmmView, virt: usize) -> u64 {
    ent(v.tables, frame(pd_entry(v, virt)) as usize, table_index(virt, 12))
}

/// The low bits of an address are its offset in a 4 KiB, 2 MiB or 1 GiB page.
proof fn lemma_low_bits(x: u64)
    ensures
        x & 0xFFF == x % 0x1000,
        x & 0x1F_FFFF == x % 0x20_0000,
        x & 0x3FFF_FFFF == x % 0x4000_0000,
{
    assert(x & 0xFFF == x % 0x1000 && x & 0x1F_FFFF == x % 0x20_0000 && x & 0x3FFF_FFFF == x % 0x4000_0000)
        by (bit_vector);
}

/// An address inside a 1 GiB page translates to the page's frame plus the
/// address's offset within the 1 GiB.
pub proof fn law_translate_1gib_page(v: VmmView, virt: usize)
    requires
        present(pml4_entry(v, virt)),
        present(pdpt_entry(v, virt)),
        huge(pdpt_entry(v, virt)),
    ensures
        translate_spec(v, virt) == Some((frame(pdpt_entry(v, virt)) + virt % 0x4000_0000) as usize),
{
    lemma_low_bits(virt as u64);
}

/// An address inside a 2 MiB page translates to the page's frame plus the
/// address's offset within the 2 MiB.
pub proof fn law_translate_2mib_page(v: VmmView, virt: usize)
    requires
        present(pml4_entry(v, virt)),
        present(pdpt_entry(v, virt)),
        !huge(pdpt_entry(v, virt)),
        present(pd_entry(v, virt)),
        huge(pd_entry(v, virt)),
    ensures
        translate_spec(v, virt) == Some((frame(pd_entry(v, virt)) + virt % 0x20_0000) as usize),
{
    lemma_low_bits(virt as u64);
}

/// An address inside a 4 KiB page translates to the page's frame plus the
/// address's offset within the 4 KiB.
pub proof fn law_translate_4kib_page(v: VmmView, virt: usize)
    requires
        present(pml4_entry(v, virt)),
        present(pdpt_entry(v, virt)),
        !huge(pdpt_entry(v, virt)),
        present(pd_entry(v, virt)),
        !huge(pd_entry(v, virt)),
        present(pt_entry(v, virt)),
    ensures
        translate_spec(v, virt) == Some((frame(pt_entry(v, virt)) + virt % 0x1000) as usize),
{
    lemma_low_bits(virt as u64);
}

/// Two addresses in the same 2 MiB page translate the same distance apart
/// as they are: the whole 2 MiB is mapped in one piece.
pub proof fn law_translate_2mib_offsets(v: VmmView, a: usize, b: usize)
    requires
        a / 0x20_0000 == b / 0x20_0000,
        present(pml4_entry(v, a)),
        present(pdpt_entry(v, a)),
        !huge(pdpt_entry(v, a)),
        present(pd_entry(v, a)),
        huge(pd_entry(v, a)),
        frame(pd_entry(v, a)) + 0x20_0000 <= usize::MAX,
    ensures
        translate_spec(v, a) is Some,
        translate_spec(v, b) is Some,
        translate_spec(v, b)->0 - translate_spec(v, a)->0 == b - a,
{
    let x = a as u64;
    let y = b as u64;
    assert(x / 0x20_0000 == y / 0x20_0000 ==> (x >> 39) & 0x1FF == (y >> 39) & 0x1FF && (x >> 30) & 0x1FF == (y >> 30)
        & 0x1FF && (x >> 21) & 0x1FF == (y >> 21) & 0x1FF) by (bit_vector);
    assert(table_index(a, 39) == table_index(b, 39));
    assert(table_index(a, 30) == table_index(b, 30));
    assert(table_index(a, 21) == table_index(b, 21));
    law_translate_2mib_page(v, a);
    law_translate_2mib_page(v, b);
    assert(a % 0x20_0000 - b % 0x20_0000 == a - b) by (nonlinear_arith)
        requires
            a / 0x20_0000 == b / 0x20_0000,
    ;
}

/// After `map_page(virt, phys, flags)` succeeds with present flags that hold no
/// address bits, every address in the page translates to the same offset in
/// `phys` (when the walk crosses no large page and the tables already on the
/// walk are distinct and not pool frames still to be handed out).
pub proof fn law_map_then_translate(before: Vmm, virt: usize, phys: usize, flags: PageFlags, off: usize)
    requires
        before.wf(),
        path_separate(before@, virt),
        map_spec(before@, virt, phys, flags.bits).1 is Ok,
        flags.bits & ADDR_MASK == 0,
        flags.bits & PAGE_PRESENT != 0,
        (phys as u64) < 0x10_0000_0000_0000,
        no_huge_on_path(map_spec(before@, virt, phys, flags.bits).0, virt),
        off < PAGE_SIZE,
    ensures
        translate_spec(map_spec(before@, virt, phys, flags.bits).0, (virt + off) as usize) == Some(
            (phys + off) as usize,
        ),
{
    let after = map_spec(before@, virt, phys, flags.bits).0;
    lemma_map_walk(before@, virt, phys, flags.bits);
    lemma_leaf_word(phys, flags.bits);
    lemma_same_indices(virt, off);
    assert(leaf_entry(after, (virt + off) as usize) == leaf_entry(after, virt));
    assert(no_huge_on_path(after, (virt + off) as usize));
    lemma_translate_leaf(after, (virt + off) as usize);
}

/// Unmapping a page that `map_page` just mapped gives back its frame.
pub proof fn law_unmap_after_map(before: Vmm, virt: usize, phys: usize, flags: PageFlags)
    requires
        before.wf(),
        path_separate(before@, virt),
        map_spec(before@, virt, phys, flags.bits).1 is Ok,
        flags.bits & ADDR_MASK == 0,
        flags.bits & PAGE_PRESENT != 0,
        (phys as u64) < 0x10_0000_0000_0000,
    ensures
        unmap_spec(map_spec(before@, virt, phys, flags.bits).0, virt).1 == Ok::<PhysAddr, KernelError>(phys),
{
    lemma_map_walk(before@, virt, phys, flags.bits);
    lemma_leaf_word(phys, flags.bits);
}

/// Mapping a page that `map_page` just mapped again is refused.
pub proof fn law_map_twice_refused(before: Vmm, virt: usize, phys: usize, flags: PageFlags, phys2: usize, flags2: PageFlags)
    requires
        before.wf(),
        path_separate(before@, virt),
        map_spec(before@, virt, phys, flags.bits).1 is Ok,
        flags.bits & ADDR_MASK == 0,
        flags.bits & PAGE_PRESENT != 0,
        (phys as u64) < 0x10_0000_0000_0000,
        phys2 % PAGE_SIZE == 0,
    ensures
        map_spec(map_spec(before@, virt, phys, flags.bits).0, virt, phys2, flags2.bits).1 == Err::<(), KernelError>(
            KernelError::PageAlreadyMapped,
        ),
{
    lemma_map_walk(before@, virt, phys, flags.bits);
    lemma_leaf_word(phys, flags.bits);
    let v = map_spec(before@, virt, phys, flags.bits).0;
    lemma_index_bits(virt, 39);
    lemma_index_bits(virt, 30);
    lemma_index_bits(virt, 21);
}

/// After `unmap_page` succeeds, the address no longer translates (when the
/// tables on its walk are distinct and it crosses no large page).
pub proof fn law_unmap_then_translate(before: Vmm, virt: usize)
    requires
        before.wf(),
        unmap_spec(before@, virt).1 is Ok,
        no_huge_on_path(before@, virt),
        ({
            let v = before@;
            let pdpt = next_table(v, v.pml4, table_index(virt, 39));
            let pd = next_table(v, pdpt, table_index(virt, 30));
            let pt = next_table(v, pd, table_index(virt, 21));
            pt != v.pml4 && pt != pdpt && pt != pd
        }),
    ensures
        translate_spec(unmap_spec(before@, virt).0, virt) == None::<PhysAddr>,
{
    let v = before@;
    lemma_index_bits(virt, 39);
    lemma_index_bits(virt, 30);
    lemma_index_bits(virt, 21);
    lemma_index_bits(virt, 12);
    let pdpt = next_table(v, v.pml4, table_index(virt, 39));
    let pd = next_table(v, pdpt, table_index(virt, 30));
    let pt = next_table(v, pd, table_index(virt, 21));
    let i1 = table_index(virt, 12);
    let after = unmap_spec(v, virt).0;
    lemma_ent_set(v.tables, pt, i1, 0, v.pml4, table_index(virt, 39));
    lemma_ent_set(v.tables, pt, i1, 0, pdpt, table_index(virt, 30));
    lemma_ent_set(v.tables, pt, i1, 0, pd, table_index(virt, 21));
    lemma_ent_set(v.tables, pt, i1, 0, pt, i1);
    assert(no_huge_on_path(after, virt));
    lemma_translate_leaf(after, virt);
    assert(!present(0u64)) by (bit_vector);
}

pub struct Vmm {
    pml4_addr: PhysAddr,
    tables: HashMapWithView<usize, Vec<u64>>,
    next_table: usize,
}

proof fn lemma_index_bits(virt: usize, shift: u64)
    requires
        shift < 64,
    ensures
        0 <= table_index(virt, shift) < 512,
{
    let x = virt as u64;
    assert((x >> shift) & 0x1FF <= 0x1FF) by (bit_vector);
}

proof fn lemma_frame_bound(e: u64)
    ensures
        frame(e) <= 0x000F_FFFF_FFFF_F000,
        frame(e) % 4096 == 0,
{
    assert(e & 0x000F_FFFF_FFFF_F000u64 <= 0x000F_FFFF_FFFF_F000u64) by (bit_vector);
    assert((e & 0x000F_FFFF_FFFF_F000u64) % 4096 == 0) by (bit_vector);
}

impl View for Vmm {
    type V = VmmView;

    closed spec fn view(&self) -> VmmView {
        VmmView {
            pml4: self.pml4_addr,
            tables: self.tables@.map_values(|t: Vec<u64>| t@),
            next_table: self.next_table,
        }
    }
}

impl Vmm {
    pub closed spec fn wf(&self) -> bool {
        &&& forall|t: usize| #[trigger] self.tables@.contains_key(t) ==> self.tables@[t]@.len() == 512
        &&& VMM_PAGES_BASE <= self.next_table <= VMM_PAGES_END
        &&& self.next_table % PAGE_SIZE == 0
    }

    /// A manager for the page tables rooted at the PML4 named by `cr3`
    /// (its address bits), holding `tables`: the tables already in place,
    /// each given by its physical address and its 512 entries (a later
    /// copy of an address replaces an earlier one).
    pub fn new(cr3: u64, tables: Vec<(PhysAddr, Vec<u64>)>) -> (vmm: Self)
        requires
            forall|k: int| 0 <= k < tables@.len() ==> (#[trigger] tables@[k]).1@.len() == 512,
        ensures
            vmm.wf(),
            vmm@.pml4 == frame(cr3) as usize,
            vmm@.tables == tables_of(Seq::new(tables@.len(), |k: int| (tables@[k].0, tables@[k].1@))),
            vmm@.next_table == VMM_PAGES_BASE,
    {
        let ghost given = Seq::new(tables@.len(), |k: int| (tables@[k].0, tables@[k].1@));
        let mut store: HashMapWithView<usize, Vec<u64>> = HashMapWithView::new();
        let mut tables = tables;
        let n = tables.len();
        let mut rest: Vec<(PhysAddr, Vec<u64>)> = Vec::new();
        // Take the tables off the back, then store them front to back.
        while tables.len() > 0
            invariant
                tables@.len() + rest@.len() == n,
                n == given.len(),
                forall|k: int| 0 <= k < tables@.len() ==> (#[trigger] tables@[k]).0 == given[k].0 && tables@[k].1@ == given[k].1,
                forall|k: int| 0 <= k < rest@.len() ==> (#[trigger] rest@[k]).0 == given[n - 1 - k].0 && rest@[k].1@ == given[n - 1 - k].1,
            decreases tables@.len(),
        {
            let e = tables.pop().unwrap();
            rest.push(e);
        }
        let mut i: usize = 0;
        assert(store@.map_values(|t: Vec<u64>| t@) =~= tables_of(given.subrange(0, 0)));
        while rest.len() > 0
            invariant
                rest@.len() + i == n,
                n == given.len(),
                forall|k: int| 0 <= k < rest@.len() ==> (#[trigger] rest@[k]).0 == given[n - 1 - k].0 && rest@[k].1@ == given[n - 1 - k].1,
                forall|k: int| 0 <= k < n ==> (#[trigger] given[k]).1.len() == 512,
                forall|t: usize| #[trigger] store@.contains_key(t) ==> store@[t]@.len() == 512,
                store@.map_values(|t: Vec<u64>| t@) == tables_of(given.subrange(0, i as int)),
            decreases rest@.len(),
        {
            let e = rest.pop().unwrap();
            assert(e.0 == given[i as int].0 && e.1@ == given[i as int].1);
            let ghost before = store@;
            store.insert(e.0, e.1);
            proof {
                assert(given.subrange(0, i + 1).drop_last() =~= given.subrange(0, i as int));
                assert(store@.map_values(|t: Vec<u64>| t@) =~= before.map_values(|t: Vec<u64>| t@).insert(
                    given[i as int].0,
                    given[i as int].1,
                ));
            }
            i = i + 1;
        }
        assert(given.subrange(0, n as int) =~= given);
        let vmm = Vmm { pml4_addr: (cr3 & ADDR_MASK) as usize, tables: store, next_table: VMM_PAGES_BASE };
        vmm
    }

    pub fn pml4_addr(&self) -> (r: PhysAddr)
        ensures
            r == self@.pml4,
    {
        self.pml4_addr
    }

    fn get_entry(&self, table: usize, index: usize) -> (e: u64)
        requires
            self.wf(),
            index < 512,
        ensures
            e == ent(self@.tables, table, index as int),
    {
        match self.tables.get(&table) {
            Some(t) => t[index],
            None => 0,
        }
    }

    fn set_entry(&mut self, table: usize, index: usize, value: u64)
        requires
            old(self).wf(),
            index < 512,
        ensures
            final(self).wf(),
            final(self)@ == (VmmView { tables: set_ent(old(self)@.tables, table, index as int, value), ..old(self)@ }),
    {
        let mut t = match self.tables.remove(&table) {
            Some(t) => t,
            None => {
                let mut z: Vec<u64> = Vec::new();
                let mut k: usize = 0;
                while k < 512
                    invariant
                        k <= 512,
                        z@ == Seq::new(k as nat, |i: int| 0u64),
                    decreases 512 - k,
                {
                    z.push(0);
                    k = k + 1;
                }
                assert(z@ =~= zero_table());
                z
            },
        };
        t.set(index, value);
        self.tables.insert(table, t);
        assert(self@.tables =~= set_ent(old(self)@.tables, table, index as int, value));
    }

    /// Takes a cleared table from the pool.
    fn alloc_page_table(&mut self) -> (r: KernelResult<PhysAddr>)
        requires
            old(self).wf(),
        ensures
            final(self).wf(),
            old(self).next_table + PAGE_SIZE > VMM_PAGES_END ==> r == Err::<PhysAddr, KernelError>(
                KernelError::OutOfMemory,
            ) && final(self)@ == old(self)@,
            old(self).next_table + PAGE_SIZE <= VMM_PAGES_END ==> r == Ok::<PhysAddr, KernelError>(
                old(self).next_table,
            ) && final(self)@ == (VmmView {
                tables: old(self)@.tables.insert(old(self).next_table, zero_table()),
                next_table: (old(self).next_table + PAGE_SIZE) as usize,
                ..old(self)@
            }),
    {
        if self.next_table + PAGE_SIZE > VMM_PAGES_END {
            return Err(KernelError::OutOfMemory);
        }
        let addr = self.next_table;
        self.next_table = self.next_table + PAGE_SIZE;
        let mut z: Vec<u64> = Vec::new();
        let mut k: usize = 0;
        while k < 512
            invariant
                k <= 512,
                z@ == Seq::new(k as nat, |i: int| 0u64),
            decreases 512 - k,
        {
            z.push(0);
            k = k + 1;
        }
        assert(z@ =~= zero_table());
        self.tables.insert(addr, z);
        assert(self@.tables =~= old(self)@.tables.insert(old(self).next_table, zero_table()));
        Ok(addr)
    }

    /// Links entry `index` of `table` to a table, taking one from the pool if needed.
    fn ensure(&mut self, table: usize, index: usize) -> (r: KernelResult<()>)
        requires
            old(self).wf(),
            index < 512,
        ensures
            final(self).wf(),
            match ensure_level(old(self)@, table, index as int) {
                Some(v) => r is Ok && final(self)@ == v,
                None => r == Err::<(), KernelError>(KernelError::OutOfMemory) && final(self)@ == old(self)@,
            },
    {
        let e = self.get_entry(table, index);
        if e & PAGE_PRESENT == 0 {
            let new_table = self.alloc_page_table()?;
            proof {
                assert(new_table < 0x800000);
            }
            self.set_entry(table, index, (new_table as u64) | PAGE_PRESENT | PAGE_WRITABLE);
        }
        Ok(())
    }

    fn next_addr(&self, table: usize, index: usize) -> (r: usize)
        requires
            self.wf(),
            index < 512,
        ensures
            r == next_table(self@, table, index as int),
    {
        ((self.get_entry(table, index) & ADDR_MASK) as usize)
    }

    /// Maps the page at `virt` to the frame at `phys` with `flags`, creating
    /// missing intermediate tables (present and writable). The caller flushes
    /// the TLB entry for `virt` on success.
    pub fn map_page(&mut self, virt: VirtAddr, phys: PhysAddr, flags: PageFlags) -> (r: KernelResult<()>)
        requires
            old(self).wf(),
        ensures
            final(self).wf(),
            (final(self)@, r) == map_spec(old(self)@, virt, phys, flags.bits),
    {
        if virt % PAGE_SIZE != 0 || phys % PAGE_SIZE != 0 {
            return Err(KernelError::InvalidArgument);
        }
        let pml4_index = ((virt as u64 >> 39) & 0x1FF) as usize;
        let pdpt_index = ((virt as u64 >> 30) & 0x1FF) as usize;
        let pd_index = ((virt as u64 >> 21) & 0x1FF) as usize;
        let pt_index = ((virt as u64 >> 12) & 0x1FF) as usize;
        proof {
            lemma_index_bits(virt, 39);
            lemma_index_bits(virt, 30);
            lemma_index_bits(virt, 21);
            lemma_index_bits(virt, 12);
        }
        let pml4 = self.pml4_addr;
        self.ensure(pml4, pml4_index)?;
        let pdpt = self.next_addr(pml4, pml4_index);
        self.ensure(pdpt, pdpt_index)?;
        let pd = self.next_addr(pdpt, pdpt_index);
        self.ensure(pd, pd_index)?;
        let pt = self.next_addr(pd, pd_index);
        if self.get_entry(pt, pt_index) & PAGE_PRESENT != 0 {
            return Err(KernelError::PageAlreadyMapped);
        }
        self.set_entry(pt, pt_index, (phys as u64) | flags.bits());
        Ok(())
    }

    /// The last-level table and index for `virt`, following present entries.
    fn walk(&self, virt: VirtAddr) -> (r: Option<(usize, usize)>)
        requires
            self.wf(),
        ensures
            match leaf_slot(self@, virt) {
                Some((pt, i)) => r == Some((pt, i as usize)) && i < 512,
                None => r is None,
            },
    {
        let pml4_index = ((virt as u64 >> 39) & 0x1FF) as usize;
        let pdpt_index = ((virt as u64 >> 30) & 0x1FF) as usize;
        let pd_index = ((virt as u64 >> 21) & 0x1FF) as usize;
        let pt_index = ((virt as u64 >> 12) & 0x1FF) as usize;
        proof {
            lemma_index_bits(virt, 39);
            lemma_index_bits(virt, 30);
            lemma_index_bits(virt, 21);
            lemma_index_bits(virt, 12);
        }
        if self.get_entry(self.pml4_addr, pml4_index) & PAGE_PRESENT == 0 {
            return None;
        }
        let pdpt = self.next_addr(self.pml4_addr, pml4_index);
        if self.get_entry(pdpt, pdpt_index) & PAGE_PRESENT == 0 {
            return None;
        }
        let pd = self.next_addr(pdpt, pdpt_index);
        if self.get_entry(pd, pd_index) & PAGE_PRESENT == 0 {
            return None;
        }
        let pt = self.next_addr(pd, pd_index);
        Some((pt, pt_index))
    }

    /// Removes the mapping of the page at `virt` and returns the frame it
    /// mapped. The caller flushes the TLB entry for `virt` on success.
    pub fn unmap_page(&mut self, virt: VirtAddr) -> (r: KernelResult<PhysAddr>)
        requires
            old(self).wf(),
        ensures
            final(self).wf(),
            (final(self)@, r) == unmap_spec(old(self)@, virt),
    {
        if virt % PAGE_SIZE != 0 {
            return Err(KernelError::InvalidArgument);
        }
        match self.walk(virt) {
            None => Err(KernelError::PageNotMapped),
            Some((pt, i)) => {
                let e = self.get_entry(pt, i);
                if e & PAGE_PRESENT == 0 {
                    return Err(KernelError::PageNotMapped);
                }
                let phys = (e & ADDR_MASK) as usize;
                self.set_entry(pt, i, 0);
                Ok(phys)
            },
        }
    }

    /// Replaces the attribute bits of the mapping of the page at `virt`,
    /// keeping its frame. The caller flushes the TLB entry for `virt` on success.
    pub fn update_flags(&mut self, virt: VirtAddr, flags: PageFlags) -> (r: KernelResult<()>)
        requires
            old(self).wf(),
        ensures
            final(self).wf(),
            (final(self)@, r) == update_flags_spec(old(self)@, virt, flags.bits),
    {
        if virt % PAGE_SIZE != 0 {
            return Err(KernelError::InvalidArgument);
        }
        match self.walk(virt) {
            None => Err(KernelError::PageNotMapped),
            Some((pt, i)) => {
                let e = self.get_entry(pt, i);
                if e & PAGE_PRESENT == 0 {
                    return Err(KernelError::PageNotMapped);
                }
                self.set_entry(pt, i, (e & ADDR_MASK) | flags.bits());
                Ok(())
            },
        }
    }

    /// A 1 GiB or 2 MiB page entry: the address it maps `virt` to.
    fn check_huge_page(&self, table: usize, index: usize, virt: VirtAddr, mask: u64) -> (r: Option<PhysAddr>)
        requires
            self.wf(),
            index < 512,
            mask <= 0x3FFF_FFFF,
        ensures
            ({
                let e = ent(self@.tables, table, index as int);
                r == if huge(e) && present(e) {
                    Some((frame(e) + (virt as u64 & mask)) as usize)
                } else {
                    None::<PhysAddr>
                }
            }),
    {
        let entry = self.get_entry(table, index);
        if entry & PAGE_HUGE_PAGE != 0 && entry & PAGE_PRESENT != 0 {
            proof {
                lemma_frame_bound(entry);
                assert(virt as u64 & mask <= mask) by (bit_vector);
            }
            return Some(((entry & ADDR_MASK) + (virt as u64 & mask)) as usize);
        }
        None
    }

    /// The physical address that `virt` is mapped to, following 1 GiB and
    /// 2 MiB pages.
    pub fn translate(&self, virt: VirtAddr) -> (r: Option<PhysAddr>)
        requires
            self.wf(),
        ensures
            r == translate_spec(self@, virt),
    {
        let pml4_index = ((virt as u64 >> 39) & 0x1FF) as usize;
        let pdpt_index = ((virt as u64 >> 30) & 0x1FF) as usize;
        let pd_index = ((virt as u64 >> 21) & 0x1FF) as usize;
        let pt_index = ((virt as u64 >> 12) & 0x1FF) as usize;
        proof {
            lemma_index_bits(virt, 39);
            lemma_index_bits(virt, 30);
            lemma_index_bits(virt, 21);
            lemma_index_bits(virt, 12);
        }
        if self.get_entry(self.pml4_addr, pml4_index) & PAGE_PRESENT == 0 {
            return None;
        }
        let pdpt = self.next_addr(self.pml4_addr, pml4_index);
        if let Some(phys) = self.check_huge_page(pdpt, pdpt_index, virt, 0x3FFF_FFFF) {
            return Some(phys);
        }
        if self.get_entry(pdpt, pdpt_index) & PAGE_PRESENT == 0 {
            return None;
        }
        let pd = self.next_addr(pdpt, pdpt_index);
        if let Some(phys) = self.check_huge_page(pd, pd_index, virt, 0x1F_FFFF) {
            return Some(phys);
        }
        if self.get_entry(pd, pd_index) & PAGE_PRESENT == 0 {
            return None;
        }
        let pt = self.next_addr(pd, pd_index);
        let e = self.get_entry(pt, pt_index);
        if e & PAGE_PRESENT == 0 {
            return None;
        }
        proof {
            lemma_frame_bound(e);
            let x = virt as u64;
            assert(x & 0xFFF <= 0xFFF) by (bit_vector);
        }
        Some(((e & ADDR_MASK) + (virt as u64 & 0xFFF)) as usize)
    }

    /// Maps every page from the one holding `start` up to `end` to itself,
    /// stopping at the first failure.
    pub fn identity_map(&mut self, start: PhysAddr, end: PhysAddr, flags: PageFlags) -> (r: KernelResult<()>)
        requires
            old(self).wf(),
            !identity_spec(old(self)@, (start - start % PAGE_SIZE) as usize, end, flags.bits).2,
        ensures
            final(self).wf(),
            (final(self)@, r) == ({
                let (v, res, _) = identity_spec(old(self)@, (start - start % PAGE_SIZE) as usize, end, flags.bits);
                (v, res)
            }),
    {
        let mut addr = start & !(PAGE_SIZE - 1);
        proof {
            assert(start & !(4095usize) == start - start % 4096) by (bit_vector);
        }
        while addr < end
            invariant
                self.wf(),
                addr % PAGE_SIZE == 0,
                identity_spec(self@, addr, end, flags.bits) == identity_spec(
                    old(self)@,
                    (start - start % PAGE_SIZE) as usize,
                    end,
                    flags.bits,
                ),
                !identity_spec(self@, addr, end, flags.bits).2,
            decreases usize::MAX - addr,
        {
            self.map_page(addr, addr, flags)?;
            addr = addr + PAGE_SIZE;
        }
        Ok(())
    }
}

} // verus!
