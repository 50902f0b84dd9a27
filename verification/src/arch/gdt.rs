//! The global descriptor table: flat 64-bit code and data segments for the
//! kernel and user rings, and the task state segment. Loading the table and
//! the task register is left to the caller.
use vstd::prelude::*;

verus! {

pub const GDT_ENTRIES: usize = 7;
/// Selector of the task state segment (entry 5).
pub const TSS_SELECTOR: u16 = 0x28;

/// One segment descriptor.
#[derive(Debug, Clone, Copy, PartialEq, Eq, Structural)]
pub struct GdtEntry {
    pub limit_low: u16,
    pub base_low: u16,
    pub base_middle: u8,
    pub access: u8,
    pub flags_limit_high: u8,
    pub base_high: u8,
}

impl Default for GdtEntry {
    fn default() -> (e: Self)
        ensures
            e == create_null_spec(),
    {
        create_null_entry()
    }
}

/// The task state segment.
#[derive(Debug, Clone, Copy)]
pub struct Tss {
    pub reserved0: u32,
    pub rsp: [u64; 3],
    pub reserved1: u64,
    pub ist: [u64; 7],
    pub reserved2: u64,
    pub reserved3: u16,
    pub iomap_base: u16,
}

impl Tss {
    /// Empty, with the I/O permission map placed at `iomap_base`.
    pub fn new(iomap_base: u16) -> (t: Self)
        ensures
            t.rsp@ == seq![0u64, 0, 0],
            t.ist@ == Seq::new(7, |i: int| 0u64),
            t.iomap_base == iomap_base,
    {
        let t = Tss {
            reserved0: 0,
            rsp: [0; 3],
            reserved1: 0,
            ist: [0; 7],
            reserved2: 0,
            reserved3: 0,
            iomap_base,
        };
        assert(t.rsp@ =~= seq![0u64, 0, 0]);
        assert(t.ist@ =~= Seq::new(7, |i: int| 0u64));
        t
    }

    /// Sets the stack the processor switches to on entering ring 0.
    pub fn set_kernel_stack(&mut self, stack: u64)
        ensures
            final(self).rsp@ == old(self).rsp@.update(0, stack),
            final(self).ist@ == old(self).ist@,
            final(self).iomap_base == old(self).iomap_base,
    {
        self.rsp.set(0, stack);
    }
}

pub open spec fn create_null_spec() -> GdtEntry {
    GdtEntry { limit_low: 0, base_low: 0, base_middle: 0, access: 0, flags_limit_high: 0, base_high: 0 }
}

pub fn create_null_entry() -> (e: GdtEntry)
    ensures
        e == create_null_spec(),
{
    GdtEntry { limit_low: 0, base_low: 0, base_middle: 0, access: 0, flags_limit_high: 0, base_high: 0 }
}

/// A 64-bit code segment for privilege level `dpl` (0 to 3): present,
/// executable, readable, long mode.
pub fn create_code_entry(dpl: u8) -> (e: GdtEntry)
    requires
        dpl <= 3,
    ensures
        e == (GdtEntry {
            limit_low: 0,
            base_low: 0,
            base_middle: 0,
            access: (0x9A + dpl * 32) as u8,
            flags_limit_high: 0x20,
            base_high: 0,
        }),
{
    assert(0x9Au8 | ((dpl << 5u8) as u8) == 0x9A + dpl * 32) by (bit_vector)
        requires
            dpl <= 3,
    ;
    GdtEntry {
        limit_low: 0,
        base_low: 0,
        base_middle: 0,
        access: 0x9A | (dpl << 5),
        flags_limit_high: 0x20,
        base_high: 0,
    }
}

/// A data segment for privilege level `dpl` (0 to 3): present, writable.
pub fn create_data_entry(dpl: u8) -> (e: GdtEntry)
    requires
        dpl <= 3,
    ensures
        e == (GdtEntry {
            limit_low: 0,
            base_low: 0,
            base_middle: 0,
            access: (0x92 + dpl * 32) as u8,
            flags_limit_high: 0,
            base_high: 0,
        }),
{
    assert(0x92u8 | ((dpl << 5u8) as u8) == 0x92 + dpl * 32) by (bit_vector)
        requires
            dpl <= 3,
    ;
    GdtEntry {
        limit_low: 0,
        base_low: 0,
        base_middle: 0,
        access: 0x92 | (dpl << 5),
        flags_limit_high: 0,
        base_high: 0,
    }
}

/// The low half of the TSS descriptor: the limit and the low 32 bits of the
/// base, an available 64-bit TSS.
pub fn create_tss_entry_low(base: u64, limit: u16) -> (e: GdtEntry)
    ensures
        e == (GdtEntry {
            limit_low: limit,
            base_low: (base % 0x10000) as u16,
            base_middle: ((base / 0x10000) % 0x100) as u8,
            access: 0x89,
            flags_limit_high: 0,
            base_high: ((base / 0x100_0000) % 0x100) as u8,
        }),
{
    assert((base & 0xFFFF) as u16 == (base % 0x10000) as u16 && ((base >> 16) & 0xFF) as u8 == ((base
        / 0x10000) % 0x100) as u8 && ((base >> 24) & 0xFF) as u8 == ((base / 0x100_0000) % 0x100) as u8)
        by (bit_vector);
    GdtEntry {
        limit_low: limit,
        base_low: (base & 0xFFFF) as u16,
        base_middle: ((base >> 16) & 0xFF) as u8,
        access: 0x89,
        flags_limit_high: 0,
        base_high: ((base >> 24) & 0xFF) as u8,
    }
}

/// The high half of the TSS descriptor: the top 32 bits of the base.
pub fn create_tss_entry_high(base: u64) -> (e: GdtEntry)
    ensures
        e == (GdtEntry {
            limit_low: ((base / 0x1_0000_0000) % 0x10000) as u16,
            base_low: (base / 0x1_0000_0000_0000) as u16,
            base_middle: 0,
            access: 0,
            flags_limit_high: 0,
            base_high: 0,
        }),
{
    assert(((base >> 32) & 0xFFFF) as u16 == ((base / 0x1_0000_0000) % 0x10000) as u16 && ((base >> 48)
        & 0xFFFF) as u16 == (base / 0x1_0000_0000_0000) as u16) by (bit_vector);
    GdtEntry {
        limit_low: ((base >> 32) & 0xFFFF) as u16,
        base_low: ((base >> 48) & 0xFFFF) as u16,
        base_middle: 0,
        access: 0,
        flags_limit_high: 0,
        base_high: 0,
    }
}

/// The table: null, kernel code and data, user code and data, then the
/// two halves of the TSS descriptor for a TSS at `tss_base`.
pub fn build_gdt(tss_base: u64, tss_limit: u16) -> (g: [GdtEntry; 7])
    ensures
        g@[0] == create_null_spec(),
        g@[1].access == 0x9A && g@[2].access == 0x92,
        g@[3].access == 0xFA && g@[4].access == 0xF2,
        g@[1].flags_limit_high == 0x20 && g@[3].flags_limit_high == 0x20,
        g@[5] == create_tss_entry_low_spec(tss_base, tss_limit),
        g@[6] == create_tss_entry_high_spec(tss_base),
{
    [
        create_null_entry(),
        create_code_entry(0),
        create_data_entry(0),
        create_code_entry(3),
        create_data_entry(3),
        create_tss_entry_low(tss_base, tss_limit),
        create_tss_entry_high(tss_base),
    ]
}

pub open spec fn create_tss_entry_low_spec(base: u64, limit: u16) -> GdtEntry {
    GdtEntry {
        limit_low: limit,
        base_low: (base % 0x10000) as u16,
        base_middle: ((base / 0x10000) % 0x100) as u8,
        access: 0x89,
        flags_limit_high: 0,
        base_high: ((base / 0x100_0000) % 0x100) as u8,
    }
}

pub open spec fn create_tss_entry_high_spec(base: u64) -> GdtEntry {
    GdtEntry {
        limit_low: ((base / 0x1_0000_0000) % 0x10000) as u16,
        base_low: (base / 0x1_0000_0000_0000) as u16,
        base_middle: 0,
        access: 0,
        flags_limit_high: 0,
        base_high: 0,
    }
}

/// The table limit: seven 8-byte entries, less one.
pub fn gdt_limit() -> (l: u16)
    ensures
        l == 55,
{
    (GDT_ENTRIES * 8 - 1) as u16
}

} // verus!
