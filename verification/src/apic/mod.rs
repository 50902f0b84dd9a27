//! Local APIC and I/O APIC: the register values the drivers write, and the
//! interrupt routing they set up. The memory-mapped accesses themselves are
//! made by the caller.
use vstd::prelude::*;

use crate::acpi::{AcpiInfo, IntOverride};
use crate::PhysAddr;

verus! {

pub const LAPIC_ID: usize = 0x020;
pub const LAPIC_VERSION: usize = 0x030;
pub const LAPIC_EOI: usize = 0x0B0;
pub const LAPIC_SVR: usize = 0x0F0;
pub const LAPIC_ESR: usize = 0x280;
pub const LAPIC_ICR_LOW: usize = 0x300;
pub const LAPIC_ICR_HIGH: usize = 0x310;
pub const LAPIC_LVT_TIMER: usize = 0x320;
pub const LAPIC_LVT_THERMAL: usize = 0x330;
pub const LAPIC_LVT_PERF: usize = 0x340;
pub const LAPIC_LVT_LINT0: usize = 0x350;
pub const LAPIC_LVT_LINT1: usize = 0x360;
pub const LAPIC_LVT_ERROR: usize = 0x370;
pub const LAPIC_TIMER_ICR: usize = 0x380;
pub const LAPIC_TIMER_CCR: usize = 0x390;
pub const LAPIC_TIMER_DCR: usize = 0x3E0;

pub const LAPIC_SVR_ENABLE: u32 = 0x100;
/// Spurious interrupt vector.
pub const LAPIC_SPURIOUS_VECTOR: u32 = 0xFF;
/// Timer vector for scheduler preemption (the PIT's IRQ 0 vector).
pub const LAPIC_TIMER_VECTOR: u32 = 0x20;
pub const LAPIC_TIMER_MODE_ONESHOT: u32 = 0x00000;
pub const LAPIC_TIMER_MODE_PERIODIC: u32 = 0x20000;
pub const LAPIC_LVT_MASKED: u32 = 0x10000;
pub const LAPIC_TIMER_DIVIDE_BY_16: u32 = 0x03;
pub const ICR_DELIVERY_INIT: u32 = 0x500000;
pub const ICR_DELIVERY_STARTUP: u32 = 0x600000;
pub const ICR_LEVEL_ASSERT: u32 = 0x4000;
/// Delivery status bit of the interrupt command register.
pub const ICR_SEND_PENDING: u32 = 0x1000;
pub const IOAPIC_REG_VERSION: u32 = 0x01;
pub const IOAPIC_REG_REDIRECT: u32 = 0x10;
pub const IOAPIC_REDIRECT_MASKED: u64 = 0x10000;
pub const IOAPIC_REDIRECT_LEVEL: u64 = 0x8000;
/// Vector of the keyboard interrupt (IRQ 1).
pub const KEYBOARD_VECTOR: u8 = 0x21;
/// PIT input frequency in Hz.
pub const PIT_FREQUENCY: u64 = 1193182;
/// Length of the LAPIC timer calibration in milliseconds.
pub const CALIBRATION_MS: u64 = 50;

/// Reads of the command register while waiting for an IPI's delivery.
pub const ICR_WAIT_READS: u32 = 1000;

/// The next step of the wait for an IPI's delivery.
#[derive(Debug, Clone, Copy, PartialEq, Eq, Structural)]
pub enum IcrWait {
    /// The delivery bit is clear.
    Delivered,
    /// Read the command register again.
    ReadAgain,
    /// The reads are used up; stop waiting.
    GiveUp,
}

/// One write to a local APIC register.
#[derive(Debug, Clone, Copy, PartialEq, Eq, Structural)]
pub struct RegWrite {
    pub offset: usize,
    pub value: u32,
}

/// The local APIC: where its registers are and whether it was brought up.
#[derive(Debug, Clone, Copy, PartialEq, Eq, Structural)]
pub struct LocalApic {
    pub base: PhysAddr,
    pub initialized: bool,
    pub using_apic: bool,
}

/// The writes that bring the local APIC up: every LVT entry masked, the
/// error status cleared twice, then the spurious vector with the enable bit.
pub open spec fn init_writes() -> Seq<RegWrite> {
    seq![
        RegWrite { offset: LAPIC_LVT_TIMER, value: LAPIC_LVT_MASKED },
        RegWrite { offset: LAPIC_LVT_THERMAL, value: LAPIC_LVT_MASKED },
        RegWrite { offset: LAPIC_LVT_PERF, value: LAPIC_LVT_MASKED },
        RegWrite { offset: LAPIC_LVT_LINT0, value: LAPIC_LVT_MASKED },
        RegWrite { offset: LAPIC_LVT_LINT1, value: LAPIC_LVT_MASKED },
        RegWrite { offset: LAPIC_LVT_ERROR, value: LAPIC_LVT_MASKED },
        RegWrite { offset: LAPIC_ESR, value: 0 },
        RegWrite { offset: LAPIC_ESR, value: 0 },
        RegWrite { offset: LAPIC_SVR, value: 0x1FF },
    ]
}

impl LocalApic {
    /// Not yet brought up.
    pub fn new() -> (l: Self)
        ensures
            l == (LocalApic { base: 0, initialized: false, using_apic: false }),
    {
        LocalApic { base: 0, initialized: false, using_apic: false }
    }

    /// Takes the register base from the ACPI information and gives the
    /// writes that bring the APIC up (see `init_writes`).
    pub fn init(&mut self, acpi_info: &AcpiInfo) -> (w: Vec<RegWrite>)
        ensures
            *final(self) == (LocalApic { base: acpi_info.local_apic_address, ..*old(self) }),
            w@ == init_writes(),
    {
        self.base = acpi_info.local_apic_address;
        let w = vec![
            RegWrite { offset: LAPIC_LVT_TIMER, value: LAPIC_LVT_MASKED },
            RegWrite { offset: LAPIC_LVT_THERMAL, value: LAPIC_LVT_MASKED },
            RegWrite { offset: LAPIC_LVT_PERF, value: LAPIC_LVT_MASKED },
            RegWrite { offset: LAPIC_LVT_LINT0, value: LAPIC_LVT_MASKED },
            RegWrite { offset: LAPIC_LVT_LINT1, value: LAPIC_LVT_MASKED },
            RegWrite { offset: LAPIC_LVT_ERROR, value: LAPIC_LVT_MASKED },
            RegWrite { offset: LAPIC_ESR, value: 0 },
            RegWrite { offset: LAPIC_ESR, value: 0 },
            RegWrite { offset: LAPIC_SVR, value: LAPIC_SVR_ENABLE | LAPIC_SPURIOUS_VECTOR },
        ];
        assert(LAPIC_SVR_ENABLE | LAPIC_SPURIOUS_VECTOR == 0x1FF) by (bit_vector);
        assert(w@ =~= init_writes());
        w
    }

    /// Checks the spurious vector register read back after `init`: with
    /// the enable bit set the APIC is in use, else bringing it up failed.
    pub fn confirm_enabled(&mut self, svr: u32) -> (r: Result<(), &'static str>)
        ensures
            (svr & LAPIC_SVR_ENABLE) != 0 ==> r is Ok && *final(self) == (LocalApic {
                initialized: true,
                using_apic: true,
                ..*old(self)
            }),
            (svr & LAPIC_SVR_ENABLE) == 0 ==> (r matches Err(e) && e@ == "Failed to enable Local APIC"@)
                && *final(self) == *old(self),
    {
        if (svr & LAPIC_SVR_ENABLE) == 0 {
            return Err("Failed to enable Local APIC");
        }
        self.initialized = true;
        self.using_apic = true;
        Ok(())
    }

    pub fn is_available(&self) -> (r: bool)
        ensures
            r == self.initialized,
    {
        self.initialized
    }

    pub fn is_using_apic(&self) -> (r: bool)
        ensures
            r == self.using_apic,
    {
        self.using_apic
    }

    /// End of interrupt: a zero written to the EOI register, once the APIC
    /// is up.
    pub fn eoi(&self) -> (w: Option<RegWrite>)
        ensures
            w == if self.initialized {
                Some(RegWrite { offset: LAPIC_EOI, value: 0 })
            } else {
                None::<RegWrite>
            },
    {
        if self.initialized {
            Some(RegWrite { offset: LAPIC_EOI, value: 0 })
        } else {
            None
        }
    }

    /// This processor's APIC ID from the ID register's top byte; 0 before
    /// the APIC is up.
    pub fn id(&self, id_reg: u32) -> (r: u32)
        ensures
            r == if self.initialized {
                id_reg / 0x100_0000
            } else {
                0
            },
    {
        if self.initialized {
            assert(id_reg >> 24 == id_reg / 0x100_0000) by (bit_vector);
            id_reg >> 24
        } else {
            0
        }
    }

    /// The interrupt command register's high word: the destination APIC ID
    /// in the top byte.
    pub fn icr_high(apic_id: u8) -> (r: u32)
        ensures
            r == apic_id * 0x100_0000,
    {
        assert((apic_id as u32) << 24 == apic_id * 0x100_0000) by (bit_vector);
        (apic_id as u32) << 24
    }

    /// The INIT inter-processor interrupt to `apic_id`: the high word, then
    /// the low word that sends it.
    pub fn send_init(apic_id: u8) -> (w: [RegWrite; 2])
        ensures
            w@ == seq![
                RegWrite { offset: LAPIC_ICR_HIGH, value: (apic_id * 0x100_0000) as u32 },
                RegWrite { offset: LAPIC_ICR_LOW, value: 0x504000 },
            ],
    {
        let w = [
            RegWrite { offset: LAPIC_ICR_HIGH, value: Self::icr_high(apic_id) },
            RegWrite { offset: LAPIC_ICR_LOW, value: ICR_DELIVERY_INIT | ICR_LEVEL_ASSERT },
        ];
        assert(ICR_DELIVERY_INIT | ICR_LEVEL_ASSERT == 0x504000) by (bit_vector);
        assert(w@ =~= seq![
            RegWrite { offset: LAPIC_ICR_HIGH, value: (apic_id * 0x100_0000) as u32 },
            RegWrite { offset: LAPIC_ICR_LOW, value: 0x504000 },
        ]);
        w
    }

    /// The STARTUP inter-processor interrupt to `apic_id` with the start
    /// page `vector`.
    pub fn send_startup(apic_id: u8, vector: u8) -> (w: [RegWrite; 2])
        ensures
            w@ == seq![
                RegWrite { offset: LAPIC_ICR_HIGH, value: (apic_id * 0x100_0000) as u32 },
                RegWrite { offset: LAPIC_ICR_LOW, value: (0x600000 + vector) as u32 },
            ],
    {
        let low = ICR_DELIVERY_STARTUP | ((vector as u32) & 0xFF);
        assert(ICR_DELIVERY_STARTUP | ((vector as u32) & 0xFF) == 0x600000 + vector) by (bit_vector);
        let w = [
            RegWrite { offset: LAPIC_ICR_HIGH, value: Self::icr_high(apic_id) },
            RegWrite { offset: LAPIC_ICR_LOW, value: low },
        ];
        assert(w@ =~= seq![
            RegWrite { offset: LAPIC_ICR_HIGH, value: (apic_id * 0x100_0000) as u32 },
            RegWrite { offset: LAPIC_ICR_LOW, value: (0x600000 + vector) as u32 },
        ]);
        w
    }

    /// The wait for an IPI's delivery, after read number `attempt` (from 0)
    /// of the command register gave `icr_low`: done once the delivery bit is
    /// clear; else another read, up to `ICR_WAIT_READS` reads in all.
    pub fn icr_wait_step(attempt: u32, icr_low: u32) -> (w: IcrWait)
        ensures
            w == if (icr_low & ICR_SEND_PENDING) == 0 {
                IcrWait::Delivered
            } else if attempt + 1 >= ICR_WAIT_READS {
                IcrWait::GiveUp
            } else {
                IcrWait::ReadAgain
            },
    {
        if !Self::icr_pending(icr_low) {
            IcrWait::Delivered
        } else if attempt >= ICR_WAIT_READS - 1 {
            IcrWait::GiveUp
        } else {
            IcrWait::ReadAgain
        }
    }

    /// Whether the command register still shows a delivery in progress.
    pub fn icr_pending(icr_low: u32) -> (r: bool)
        ensures
            r == ((icr_low & ICR_SEND_PENDING) != 0),
    {
        (icr_low & ICR_SEND_PENDING) != 0
    }

    /// The bus frequency measured by the calibration: the count the timer
    /// ran down from its maximum in `CALIBRATION_MS` milliseconds, at a
    /// divide of 16.
    pub fn bus_frequency(current_count: u32) -> (f: u64)
        ensures
            f == (0xFFFF_FFFF - current_count) * 16 * 1000 / 50,
    {
        let elapsed = 0xFFFF_FFFFu32 - current_count;
        (elapsed as u64) * 16 * 1000 / CALIBRATION_MS
    }

    /// PIT ticks in the calibration interval.
    pub fn calibration_ticks() -> (t: u16)
        ensures
            t == 59659,
    {
        (PIT_FREQUENCY * CALIBRATION_MS / 1000) as u16
    }

    /// The timer's initial count for `frequency_hz` interrupts per second
    /// at a divide of 16, kept to the register's 32 bits.
    pub fn timer_initial_count(bus_freq: u64, frequency_hz: u32) -> (c: u32)
        requires
            frequency_hz > 0,
        ensures
            c == ((bus_freq / 16) / (frequency_hz as u64)) as u32,
    {
        let divide: u64 = 16;
        ((bus_freq / divide) / frequency_hz as u64) as u32
    }

    /// The writes that start the periodic timer, once the APIC is up: the
    /// divide, the periodic mode on the timer vector, then the initial count.
    pub fn setup_timer(&self, frequency_hz: u32, bus_freq: u64) -> (w: Vec<RegWrite>)
        requires
            frequency_hz > 0,
        ensures
            !self.initialized ==> w@.len() == 0,
            self.initialized ==> w@ == seq![
                RegWrite { offset: LAPIC_TIMER_DCR, value: 3 },
                RegWrite { offset: LAPIC_LVT_TIMER, value: 0x20020 },
                RegWrite {
                    offset: LAPIC_TIMER_ICR,
                    value: ((bus_freq / 16) / (frequency_hz as u64)) as u32,
                },
            ],
    {
        let mut w: Vec<RegWrite> = Vec::new();
        if !self.initialized {
            return w;
        }
        w.push(RegWrite { offset: LAPIC_TIMER_DCR, value: LAPIC_TIMER_DIVIDE_BY_16 });
        assert(LAPIC_TIMER_MODE_PERIODIC | LAPIC_TIMER_VECTOR == 0x20020) by (bit_vector);
        w.push(RegWrite { offset: LAPIC_LVT_TIMER, value: LAPIC_TIMER_MODE_PERIODIC | LAPIC_TIMER_VECTOR });
        w.push(
            RegWrite {
                offset: LAPIC_TIMER_ICR,
                value: Self::timer_initial_count(bus_freq, frequency_hz),
            },
        );
        w
    }

    /// The writes that stop the timer, once the APIC is up: mask it and
    /// clear the initial count.
    pub fn stop_timer(&self) -> (w: Vec<RegWrite>)
        ensures
            !self.initialized ==> w@.len() == 0,
            self.initialized ==> w@ == seq![
                RegWrite { offset: LAPIC_LVT_TIMER, value: LAPIC_LVT_MASKED },
                RegWrite { offset: LAPIC_TIMER_ICR, value: 0 },
            ],
    {
        let mut w: Vec<RegWrite> = Vec::new();
        if self.initialized {
            w.push(RegWrite { offset: LAPIC_LVT_TIMER, value: LAPIC_LVT_MASKED });
            w.push(RegWrite { offset: LAPIC_TIMER_ICR, value: 0 });
        }
        w
    }
}

/// A write of one I/O APIC redirection entry: its low and high register
/// indices with the halves of the 64-bit entry.
#[derive(Debug, Clone, Copy, PartialEq, Eq, Structural)]
pub struct RedirectWrite {
    pub register: u32,
    pub low: u32,
    pub high: u32,
}

/// One IRQ route the I/O APIC gets: input pin, vector, trigger mode.
#[derive(Debug, Clone, Copy, PartialEq, Eq, Structural)]
pub struct IrqRoute {
    pub irq: u8,
    pub vector: u8,
    pub level_triggered: bool,
}

/// The I/O APIC.
#[derive(Debug, Clone, Copy, PartialEq, Eq, Structural)]
pub struct IoApic {
    pub base: PhysAddr,
}

/// The routes from the interrupt source overrides `from..count` that
/// redirect IRQ 0: to the timer vector, level-triggered or active low where
/// the flags say so.
pub open spec fn timer_routes(o: Seq<IntOverride>, from: int, count: int) -> Seq<IrqRoute>
    decreases count - from,
{
    if from < 0 || from >= count {
        Seq::empty()
    } else {
        let e = o[from];
        let rest = timer_routes(o, from + 1, count);
        if e.irq_source == 0 {
            seq![
                IrqRoute {
                    irq: e.global_system_interrupt as u8,
                    vector: LAPIC_TIMER_VECTOR as u8,
                    level_triggered: (e.flags & 0x0A) != 0,
                },
            ] + rest
        } else {
            rest
        }
    }
}

impl IoApic {
    /// The register index of redirection entry `irq`'s low half.
    pub fn redirect_register(irq: u8) -> (r: u32)
        ensures
            r == 0x10 + 2 * irq,
    {
        IOAPIC_REG_REDIRECT + (irq as u32) * 2
    }

    /// Splits entry `value` of `irq` into its two register writes.
    pub fn write_redirect(irq: u8, value: u64) -> (w: RedirectWrite)
        ensures
            w.register == 0x10 + 2 * irq,
            w.low == value % 0x1_0000_0000,
            w.high == value / 0x1_0000_0000,
    {
        assert(value as u32 == value % 0x1_0000_0000) by (bit_vector);
        assert((value >> 32) as u32 == value / 0x1_0000_0000) by (bit_vector);
        RedirectWrite {
            register: Self::redirect_register(irq),
            low: value as u32,
            high: (value >> 32) as u32,
        }
    }

    /// The entry read back from its two halves.
    pub fn read_redirect(low: u32, high: u32) -> (v: u64)
        ensures
            v == high * 0x1_0000_0000 + low,
    {
        assert(((high as u64) << 32) | (low as u64) == high * 0x1_0000_0000 + low) by (bit_vector);
        ((high as u64) << 32) | (low as u64)
    }

    /// The redirection entry that delivers `irq` to `vector` on the boot
    /// processor, unmasked, with fixed delivery.
    pub fn setup_irq(irq: u8, vector: u8, level_triggered: bool) -> (w: RedirectWrite)
        ensures
            w == Self::write_redirect_spec(
                irq,
                (if level_triggered {
                    vector + 0x8000
                } else {
                    vector as int
                }) as u64,
            ),
    {
        let mut entry: u64 = vector as u64;
        if level_triggered {
            assert((vector as u64) | 0x8000u64 == vector + 0x8000) by (bit_vector);
            entry = entry | IOAPIC_REDIRECT_LEVEL;
        }
        Self::write_redirect(irq, entry)
    }

    pub open spec fn write_redirect_spec(irq: u8, value: u64) -> RedirectWrite {
        RedirectWrite {
            register: (0x10 + 2 * irq) as u32,
            low: (value % 0x1_0000_0000) as u32,
            high: (value / 0x1_0000_0000) as u32,
        }
    }

    /// Entry `current` of `irq` with its mask bit set.
    pub fn mask_irq(irq: u8, current: u64) -> (w: RedirectWrite)
        ensures
            w == Self::write_redirect_spec(irq, current | IOAPIC_REDIRECT_MASKED),
    {
        Self::write_redirect(irq, current | IOAPIC_REDIRECT_MASKED)
    }

    /// Entry `current` of `irq` with its mask bit clear.
    pub fn unmask_irq(irq: u8, current: u64) -> (w: RedirectWrite)
        ensures
            w == Self::write_redirect_spec(irq, current & !IOAPIC_REDIRECT_MASKED),
    {
        Self::write_redirect(irq, current & !IOAPIC_REDIRECT_MASKED)
    }

    /// Redirection entries the I/O APIC has, from its version register.
    pub fn max_entries(version: u32) -> (n: u32)
        ensures
            n == (version / 0x10000) % 0x100 + 1,
    {
        assert((version >> 16) & 0xFF == (version / 0x10000) % 0x100) by (bit_vector);
        ((version >> 16) & 0xFF) + 1
    }

    /// The I/O APIC set-up the ACPI information calls for: none without an
    /// I/O APIC (the legacy PIC stays); else its base and the routes, the
    /// keyboard's IRQ 1 first, then each override that redirects IRQ 0.
    pub fn init(acpi_info: &AcpiInfo) -> (r: Option<(IoApic, Vec<IrqRoute>)>)
        requires
            acpi_info.int_override_count <= 16,
        ensures
            acpi_info.io_apic_address == 0 ==> r is None,
            acpi_info.io_apic_address != 0 ==> (r matches Some((a, routes)) && a.base
                == acpi_info.io_apic_address && routes@ == seq![
                IrqRoute { irq: 1, vector: KEYBOARD_VECTOR, level_triggered: false },
            ] + timer_routes(acpi_info.int_overrides@, 0, acpi_info.int_override_count as int)),
    {
        if acpi_info.io_apic_address == 0 {
            return None;
        }
        let mut routes: Vec<IrqRoute> = Vec::new();
        routes.push(IrqRoute { irq: 1, vector: KEYBOARD_VECTOR, level_triggered: false });
        let count = acpi_info.int_override_count;
        let ghost o = acpi_info.int_overrides@;
        let ghost head = routes@;
        let mut i: usize = 0;
        assert(head =~= seq![IrqRoute { irq: 1, vector: KEYBOARD_VECTOR, level_triggered: false }]);
        assert(routes@ + timer_routes(o, 0, count as int) =~= head + timer_routes(o, 0, count as int));
        while i < count
            invariant
                i <= count <= 16,
                o == acpi_info.int_overrides@,
                count == acpi_info.int_override_count,
                head == seq![IrqRoute { irq: 1, vector: KEYBOARD_VECTOR, level_triggered: false }],
                routes@ + timer_routes(o, i as int, count as int) == head + timer_routes(
                    o,
                    0,
                    count as int,
                ),
            decreases count - i,
        {
            let e = acpi_info.int_overrides[i];
            let ghost before = routes@;
            if e.irq_source == 0 {
                routes.push(
                    IrqRoute {
                        irq: e.global_system_interrupt as u8,
                        vector: LAPIC_TIMER_VECTOR as u8,
                        level_triggered: (e.flags & 0x0A) != 0,
                    },
                );
            }
            assert(routes@ + timer_routes(o, i + 1, count as int) =~= before + timer_routes(
                o,
                i as int,
                count as int,
            ));
            i = i + 1;
        }
        assert(routes@ =~= routes@ + timer_routes(o, i as int, count as int));
        Some((IoApic { base: acpi_info.io_apic_address }, routes))
    }
}

} // verus!
