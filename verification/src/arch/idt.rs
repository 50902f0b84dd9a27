//! The interrupt descriptor table: gates for the exceptions, the hardware
//! interrupts, the system call and the APIC's spurious vector. Loading the
//! table is left to the caller.
use vstd::prelude::*;

verus! {

pub const IDT_ENTRIES: usize = 256;
pub const IDT_PRESENT: u8 = 0x80;
pub const IDT_INTERRUPT_GATE: u8 = 0x0E;
pub const IDT_TRAP_GATE: u8 = 0x0F;
pub const IDT_DPL_KERNEL: u8 = 0x00;
pub const IDT_DPL_USER: u8 = 0x60;
/// Present ring-0 interrupt gate: `IDT_PRESENT | IDT_INTERRUPT_GATE | IDT_DPL_KERNEL`.
pub const KERNEL_GATE: u8 = 0x8E;
/// Present ring-3 trap gate: `IDT_PRESENT | IDT_TRAP_GATE | IDT_DPL_USER`.
pub const USER_GATE: u8 = 0xEF;
/// Kernel code segment selector.
pub const KERNEL_CS: u16 = 0x08;

/// One gate.
#[derive(Debug, Clone, Copy, PartialEq, Eq, Structural)]
pub struct IdtEntry {
    pub offset_low: u16,
    pub selector: u16,
    pub ist: u8,
    pub attributes: u8,
    pub offset_middle: u16,
    pub offset_high: u32,
    pub reserved: u32,
}

pub open spec fn empty_gate() -> IdtEntry {
    IdtEntry {
        offset_low: 0,
        selector: 0,
        ist: 0,
        attributes: 0,
        offset_middle: 0,
        offset_high: 0,
        reserved: 0,
    }
}

/// A gate with `attributes` into the handler whose address is `addr`,
/// through the kernel's segment selector.
pub open spec fn gate(addr: u64, attributes: u8) -> IdtEntry {
    IdtEntry {
        offset_low: (addr % 0x10000) as u16,
        selector: KERNEL_CS,
        ist: 0,
        attributes,
        offset_middle: ((addr / 0x10000) % 0x10000) as u16,
        offset_high: (addr / 0x1_0000_0000) as u32,
        reserved: 0,
    }
}

impl Default for IdtEntry {
    fn default() -> (e: Self)
        ensures
            e == empty_gate(),
    {
        IdtEntry {
            offset_low: 0,
            selector: 0,
            ist: 0,
            attributes: 0,
            offset_middle: 0,
            offset_high: 0,
            reserved: 0,
        }
    }
}

/// The table of 256 gates.
pub struct Idt {
    entries: Vec<IdtEntry>,
}

impl Idt {
    pub closed spec fn gates(&self) -> Seq<IdtEntry> {
        self.entries@
    }

    /// All 256 gates empty.
    pub fn new() -> (t: Self)
        ensures
            t.gates().len() == IDT_ENTRIES,
            forall|i: int| 0 <= i < IDT_ENTRIES ==> #[trigger] t.gates()[i] == empty_gate(),
    {
        let mut entries: Vec<IdtEntry> = Vec::new();
        let mut i: usize = 0;
        while i < IDT_ENTRIES
            invariant
                i <= IDT_ENTRIES,
                entries@.len() == i,
                forall|k: int| 0 <= k < i ==> #[trigger] entries@[k] == empty_gate(),
            decreases IDT_ENTRIES - i,
        {
            entries.push(IdtEntry::default());
            i = i + 1;
        }
        Idt { entries }
    }

    /// Points gate `vector` at `handler_addr`; a vector past the table is
    /// ignored.
    pub fn set_handler(&mut self, vector: usize, handler_addr: u64, attributes: u8)
        requires
            old(self).gates().len() == IDT_ENTRIES,
        ensures
            final(self).gates() == if vector < IDT_ENTRIES {
                old(self).gates().update(vector as int, gate(handler_addr, attributes))
            } else {
                old(self).gates()
            },
    {
        if vector >= IDT_ENTRIES {
            return;
        }
        assert((handler_addr & 0xFFFF) as u16 == (handler_addr % 0x10000) as u16 && ((handler_addr >> 16)
            & 0xFFFF) as u16 == ((handler_addr / 0x10000) % 0x10000) as u16 && ((handler_addr >> 32)
            & 0xFFFF_FFFF) as u32 == (handler_addr / 0x1_0000_0000) as u32) by (bit_vector);
        self.entries.set(
            vector,
            IdtEntry {
                offset_low: (handler_addr & 0xFFFF) as u16,
                selector: KERNEL_CS,
                ist: 0,
                attributes,
                offset_middle: ((handler_addr >> 16) & 0xFFFF) as u16,
                offset_high: ((handler_addr >> 32) & 0xFFFF_FFFF) as u32,
                reserved: 0,
            },
        );
    }

    /// A ring-0 interrupt gate.
    pub fn set_isr_handler(&mut self, vector: usize, handler_addr: u64)
        requires
            old(self).gates().len() == IDT_ENTRIES,
        ensures
            final(self).gates() == if vector < IDT_ENTRIES {
                old(self).gates().update(vector as int, gate(handler_addr, KERNEL_GATE))
            } else {
                old(self).gates()
            },
    {
        self.set_handler(vector, handler_addr, KERNEL_GATE);
    }

    /// A trap gate callable from ring 3.
    pub fn set_user_handler(&mut self, vector: usize, handler_addr: u64)
        requires
            old(self).gates().len() == IDT_ENTRIES,
        ensures
            final(self).gates() == if vector < IDT_ENTRIES {
                old(self).gates().update(vector as int, gate(handler_addr, USER_GATE))
            } else {
                old(self).gates()
            },
    {
        self.set_handler(vector, handler_addr, USER_GATE);
    }

    /// Fills the table: exceptions 0..32 from the stubs, vector 32 to the
    /// timer's own stub, IRQs 33..48 from stubs 32..47, the system call trap
    /// at 0x80 from the last stub, the spurious vector 0xFF to its stub.
    pub fn populate(&mut self, stubs: &[u64; 49], timer_isr: u64, spurious_isr: u64)
        requires
            old(self).gates().len() == IDT_ENTRIES,
        ensures
            final(self).gates().len() == IDT_ENTRIES,
            forall|i: int| 0 <= i < 32 ==> #[trigger] final(self).gates()[i] == gate(stubs@[i], KERNEL_GATE),
            final(self).gates()[32] == gate(timer_isr, KERNEL_GATE),
            forall|i: int|
                33 <= i < 48 ==> #[trigger] final(self).gates()[i] == gate(stubs@[i - 1], KERNEL_GATE),
            final(self).gates()[0x80] == gate(stubs@[48], USER_GATE),
            final(self).gates()[0xFF] == gate(spurious_isr, KERNEL_GATE),
            forall|i: int|
                48 <= i < IDT_ENTRIES && i != 0x80 && i != 0xFF ==> #[trigger] final(self).gates()[i]
                    == old(self).gates()[i],
    {
        let mut i: usize = 0;
        while i < 32
            invariant
                i <= 32,
                self.gates().len() == IDT_ENTRIES,
                forall|k: int| 0 <= k < i ==> #[trigger] self.gates()[k] == gate(stubs@[k], KERNEL_GATE),
                forall|k: int| 32 <= k < IDT_ENTRIES ==> #[trigger] self.gates()[k] == old(self).gates()[k],
            decreases 32 - i,
        {
            self.set_isr_handler(i, stubs[i]);
            i = i + 1;
        }
        self.set_isr_handler(32, timer_isr);
        let mut v: usize = 33;
        while v < 48
            invariant
                33 <= v <= 48,
                self.gates().len() == IDT_ENTRIES,
                forall|k: int| 0 <= k < 32 ==> #[trigger] self.gates()[k] == gate(stubs@[k], KERNEL_GATE),
                self.gates()[32] == gate(timer_isr, KERNEL_GATE),
                forall|k: int| 33 <= k < v ==> #[trigger] self.gates()[k] == gate(stubs@[k - 1], KERNEL_GATE),
                forall|k: int| 48 <= k < IDT_ENTRIES ==> #[trigger] self.gates()[k] == old(self).gates()[k],
            decreases 48 - v,
        {
            self.set_isr_handler(v, stubs[v - 1]);
            v = v + 1;
        }
        self.set_user_handler(0x80, stubs[48]);
        self.set_isr_handler(0xFF, spurious_isr);
    }

    /// The gates, by vector.
    pub fn entries(&self) -> (e: &Vec<IdtEntry>)
        ensures
            e@ == self.gates(),
    {
        &self.entries
    }

    /// The table limit: 256 sixteen-byte gates, less one.
    pub fn limit() -> (l: u16)
        ensures
            l == 4095,
    {
        (IDT_ENTRIES * 16 - 1) as u16
    }
}

} // verus!
