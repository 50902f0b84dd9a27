use deltaos::memory::heap::{SlabAllocator, MAX_BLOCKS_PER_CLASS, SLAB_CLASSES};
use deltaos::memory::pmm::Pmm;
use deltaos::memory::vmm::{PageFlags, Vmm, PAGE_PRESENT, PAGE_USER_ACCESSIBLE, PAGE_WRITABLE};
use deltaos::{KernelError, PAGE_SIZE};

const MIB: usize = 1024 * 1024;

#[test]
fn pmm_new_reserves_its_bitmap() {
    let pmm = Pmm::new(0, 16 * MIB);
    assert_eq!(pmm.total_pages(), 4096);
    // The bitmap's 512 frames from 0x500000 are in use.
    assert_eq!(pmm.used_pages(), 512);
    assert_eq!(pmm.free_page_count(), 4096 - 512);
    assert_eq!(pmm.free_memory(), (4096 - 512) * PAGE_SIZE);
    assert_eq!(pmm.used_memory(), 512 * PAGE_SIZE);
}

#[test]
fn pmm_alloc_takes_lowest_free_frame() {
    let mut pmm = Pmm::new(0, 16 * MIB);
    assert_eq!(pmm.alloc_page(), Ok(0));
    assert_eq!(pmm.alloc_page(), Ok(PAGE_SIZE));
    assert_eq!(pmm.free_page_count(), 4096 - 512 - 2);
}

#[test]
fn pmm_free_undoes_alloc() {
    let mut pmm = Pmm::new(0, 16 * MIB);
    let before = pmm.free_page_count();
    let a = pmm.alloc_page().unwrap();
    assert_eq!(pmm.free_page(a), Ok(()));
    assert_eq!(pmm.free_page_count(), before);
    // The same frame comes back first.
    assert_eq!(pmm.alloc_page(), Ok(a));
}

#[test]
fn pmm_double_free_is_refused() {
    let mut pmm = Pmm::new(0, 16 * MIB);
    let a = pmm.alloc_page().unwrap();
    assert_eq!(pmm.free_page(a), Ok(()));
    assert_eq!(pmm.free_page(a), Err(KernelError::PageNotMapped));
}

#[test]
fn pmm_free_checks_the_address() {
    let mut pmm = Pmm::new(0x100000, 16 * MIB);
    assert_eq!(pmm.free_page(0x1000), Err(KernelError::InvalidAddress));
    assert_eq!(pmm.free_page(0x100000 + 16 * MIB), Err(KernelError::InvalidAddress));
    assert_eq!(pmm.free_page(0x100010), Err(KernelError::InvalidArgument));
    assert_eq!(pmm.free_page(0x101000), Err(KernelError::PageNotMapped));
}

#[test]
fn pmm_alloc_pages_finds_a_contiguous_run() {
    let mut pmm = Pmm::new(0, 16 * MIB);
    let a = pmm.alloc_page().unwrap();
    assert_eq!(a, 0);
    let run = pmm.alloc_pages(3).unwrap();
    assert_eq!(run, PAGE_SIZE);
    assert_eq!(pmm.free_page_count(), 4096 - 512 - 4);
    assert_eq!(pmm.alloc_pages(0), Err(KernelError::OutOfMemory));
    assert_eq!(pmm.alloc_pages(5000), Err(KernelError::OutOfMemory));
}

#[test]
fn pmm_out_of_memory() {
    let mut pmm = Pmm::new(0, 2 * PAGE_SIZE);
    assert_eq!(pmm.alloc_page(), Ok(0));
    assert_eq!(pmm.alloc_page(), Ok(PAGE_SIZE));
    assert_eq!(pmm.alloc_page(), Err(KernelError::OutOfMemory));
}

#[test]
fn pmm_free_pages_range_and_reserve() {
    let mut pmm = Pmm::new(0, 16 * MIB);
    let run = pmm.alloc_pages(4).unwrap();
    assert_eq!(pmm.free_pages_range(run, 4), Ok(()));
    assert_eq!(pmm.free_page_count(), 4096 - 512);
    pmm.reserve_range(0, 3 * PAGE_SIZE);
    assert_eq!(pmm.free_page_count(), 4096 - 512 - 3);
    assert_eq!(pmm.alloc_page(), Ok(3 * PAGE_SIZE));
}

fn rw() -> PageFlags {
    PageFlags::from_bits_retain(PAGE_PRESENT | PAGE_WRITABLE)
}

#[test]
fn vmm_map_then_translate() {
    let mut vmm = Vmm::new(0x1000, Vec::new());
    assert_eq!(vmm.pml4_addr(), 0x1000);
    assert_eq!(vmm.map_page(0x40_0000, 0x20_0000, rw()), Ok(()));
    assert_eq!(vmm.translate(0x40_0000), Some(0x20_0000));
    assert_eq!(vmm.translate(0x40_0123), Some(0x20_0123));
    assert_eq!(vmm.translate(0x40_1000), None);
}

#[test]
fn vmm_map_twice_is_refused() {
    let mut vmm = Vmm::new(0x1000, Vec::new());
    assert_eq!(vmm.map_page(0x40_0000, 0x20_0000, rw()), Ok(()));
    assert_eq!(vmm.map_page(0x40_0000, 0x30_0000, rw()), Err(KernelError::PageAlreadyMapped));
    assert_eq!(vmm.translate(0x40_0000), Some(0x20_0000));
}

#[test]
fn vmm_unmap_after_map() {
    let mut vmm = Vmm::new(0x1000, Vec::new());
    assert_eq!(vmm.map_page(0x40_0000, 0x20_0000, rw()), Ok(()));
    assert_eq!(vmm.unmap_page(0x40_0000), Ok(0x20_0000));
    assert_eq!(vmm.translate(0x40_0000), None);
    assert_eq!(vmm.unmap_page(0x40_0000), Err(KernelError::PageNotMapped));
}

#[test]
fn vmm_update_flags_and_identity_map() {
    let mut vmm = Vmm::new(0x1000, Vec::new());
    assert_eq!(vmm.update_flags(0x40_0000, rw()), Err(KernelError::PageNotMapped));
    assert_eq!(vmm.identity_map(0x10_0000, 0x10_3000, rw()), Ok(()));
    assert_eq!(vmm.translate(0x10_2000), Some(0x10_2000));
    let user = PageFlags::from_bits_retain(PAGE_PRESENT | PAGE_USER_ACCESSIBLE);
    assert_eq!(vmm.update_flags(0x10_1000, user), Ok(()));
    assert_eq!(vmm.translate(0x10_1000), Some(0x10_1000));
}

#[test]
fn page_flags_operations() {
    let f = PageFlags::from_bits_retain(PAGE_PRESENT);
    let g = f.union(PageFlags::from_bits_retain(PAGE_WRITABLE));
    assert_eq!(g.bits(), 3);
    assert!(g.contains(f));
    assert!(!f.contains(g));
    assert_eq!(PageFlags::empty().bits(), 0);
}

#[test]
fn heap_classes() {
    assert_eq!(SlabAllocator::find_slab_class(0), None);
    assert_eq!(SlabAllocator::find_slab_class(1), Some(0));
    assert_eq!(SlabAllocator::find_slab_class(8), Some(0));
    assert_eq!(SlabAllocator::find_slab_class(9), Some(1));
    assert_eq!(SlabAllocator::find_slab_class(4096), Some(9));
    assert_eq!(SlabAllocator::find_slab_class(4097), None);
    assert_eq!(SlabAllocator::slab_for_alloc(3, 16), Some(1));
    assert_eq!(SlabAllocator::slab_for_alloc(100, 8), Some(4));
    assert_eq!(SlabAllocator::slab_for_alloc(5000, 8), None);
    assert_eq!(SlabAllocator::slab_for_dealloc(24, 8), Some(2));
}

#[test]
fn heap_init_and_slab_reuse() {
    let mut heap = SlabAllocator::new();
    heap.init(0x80_0000, 0x20_0000);
    let st = heap.heap_stats();
    assert_eq!(st.heap_start, 0x80_0000);
    assert_eq!(st.bump_used, SLAB_CLASSES * 4096);
    assert_eq!(st.slab_block_size[0], 8);
    assert_eq!(st.slab_block_size[9], 4096);
    // 4096 / 8 = 512 blocks for the smallest class, one for the largest.
    assert_eq!(st.slab_free[0], 512);
    assert_eq!(st.slab_free[9], 1);
    // The last block of the class's page comes first.
    let p = heap.alloc_from_slab(0);
    assert_eq!(p, 0x80_0000 + 511 * 8);
    // A block given back is handed out next.
    heap.free_to_slab(p, 0);
    assert_eq!(heap.alloc_from_slab(0), p);
    let st = heap.heap_stats();
    assert_eq!(st.slab_used[0], 1);
    assert!(st.slab_free[0] <= MAX_BLOCKS_PER_CLASS);
}

#[test]
fn heap_refills_from_bump_region() {
    let mut heap = SlabAllocator::new();
    heap.init(0x80_0000, 12 * 4096);
    let first = heap.alloc_from_slab(9);
    assert_eq!(first, 0x80_0000 + 9 * 4096);
    // The class is empty now: a new page comes from the bump region.
    let second = heap.alloc_from_slab(9);
    assert_eq!(second, 0x80_0000 + 10 * 4096);
    let third = heap.alloc_from_slab(9);
    assert_eq!(third, 0x80_0000 + 11 * 4096);
    // No page left.
    assert_eq!(heap.alloc_from_slab(9), 0);
}

#[test]
fn heap_bump_alignment() {
    let mut heap = SlabAllocator::new();
    heap.init(0x80_0000, 0x20_0000);
    let a = heap.alloc_bump(10, 8);
    assert_eq!(a, 0x80_0000 + 40960);
    let b = heap.alloc_bump(5, 64);
    assert_eq!(b, 0x80_0000 + 40960 + 64);
    assert_eq!(heap.alloc_bump(0x40_0000, 8), 0);
}

#[test]
fn vmm_walks_the_tables_in_place() {
    // A boot-time mapping of 0x40_0000 to 0x90_0000 through tables at
    // 0x1000 (PML4), 0x2000 (PDPT), 0x3000 (PD) and 0x4000 (PT).
    let mut pml4 = vec![0u64; 512];
    let mut pdpt = vec![0u64; 512];
    let mut pd = vec![0u64; 512];
    let mut pt = vec![0u64; 512];
    pml4[0] = 0x2000 | 3;
    pdpt[0] = 0x3000 | 3;
    pd[2] = 0x4000 | 3;
    pt[0] = 0x90_0000 | 3;
    let vmm_tables = vec![(0x1000, pml4), (0x2000, pdpt), (0x3000, pd), (0x4000, pt)];
    let mut vmm = Vmm::new(0x1000, vmm_tables);
    assert_eq!(vmm.translate(0x40_0010), Some(0x90_0010));
    assert_eq!(vmm.map_page(0x40_0000, 0x20_0000, rw()), Err(KernelError::PageAlreadyMapped));
    // A neighbouring page goes into the existing last-level table.
    assert_eq!(vmm.map_page(0x40_1000, 0x20_0000, rw()), Ok(()));
    assert_eq!(vmm.translate(0x40_1000), Some(0x20_0000));
    assert_eq!(vmm.unmap_page(0x40_0000), Ok(0x90_0000));
}
