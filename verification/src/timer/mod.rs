//! System timers: the PIT and the HPET, and the tick count and uptime they
//! drive. Port and register accesses are made by the caller with the values
//! computed here.
use vstd::prelude::*;

use crate::acpi::AcpiInfo;
use crate::PhysAddr;

verus! {

pub const PIT_CHANNEL_0: u16 = 0x40;
pub const PIT_CHANNEL_2: u16 = 0x42;
pub const PIT_COMMAND: u16 = 0x43;
/// PIT input frequency in Hz.
pub const PIT_BASE_FREQ: u64 = 1193182;
/// Scheduler tick rate the timers are set up for.
pub const SCHEDULER_HZ: u32 = 100;
/// Largest HPET counter period accepted, in femtoseconds.
pub const HPET_MAX_PERIOD: u64 = 100_000_000;
pub const HPET_GENERAL_CAPS: usize = 0x000;
pub const HPET_GENERAL_CONFIG: usize = 0x010;
pub const HPET_MAIN_COUNTER: usize = 0x0F0;
pub const HPET_TIMER0_CONFIG: usize = 0x100;
pub const HPET_TIMER0_COMPARATOR: usize = 0x108;
pub const HPET_CONFIG_ENABLE: u64 = 1;
pub const HPET_CONFIG_LEGACY_ROUTE: u64 = 2;
/// Timer 0 enabled, periodic, interrupting.
pub const HPET_TIMER_PERIODIC_CONFIG: u64 = 7;
/// Femtoseconds in a second.
pub const FEMTOS_PER_SEC: u64 = 1_000_000_000_000_000;

/// Tick count, uptime and the HPET's state.
#[derive(Debug, Clone, Copy, PartialEq, Eq, Structural)]
pub struct TimerState {
    pub tick_count: u64,
    pub timer_hz: u32,
    pub hpet_base: PhysAddr,
    pub hpet_period: u64,
    pub hpet_available: bool,
    pub uptime_ms: u64,
}

impl TimerState {
    /// No ticks yet, at the scheduler's rate, without an HPET.
    pub fn new() -> (t: Self)
        ensures
            t == (TimerState {
                tick_count: 0,
                timer_hz: SCHEDULER_HZ,
                hpet_base: 0,
                hpet_period: 0,
                hpet_available: false,
                uptime_ms: 0,
            }),
    {
        TimerState {
            tick_count: 0,
            timer_hz: SCHEDULER_HZ,
            hpet_base: 0,
            hpet_period: 0,
            hpet_available: false,
            uptime_ms: 0,
        }
    }

    /// One timer interrupt: a tick more, and a tick's worth of milliseconds
    /// (whole milliseconds, rounded down) more uptime.
    pub fn on_timer_tick(&mut self)
        requires
            old(self).timer_hz > 0,
            old(self).tick_count < u64::MAX,
            old(self).uptime_ms + 1000int / (old(self).timer_hz as int) <= u64::MAX,
        ensures
            *final(self) == (TimerState {
                tick_count: (old(self).tick_count + 1) as u64,
                uptime_ms: (old(self).uptime_ms + 1000int / (old(self).timer_hz as int)) as u64,
                ..*old(self)
            }),
    {
        self.tick_count = self.tick_count + 1;
        self.uptime_ms = self.uptime_ms + 1000 / self.timer_hz as u64;
    }

    pub fn tick_count(&self) -> (r: u64)
        ensures
            r == self.tick_count,
    {
        self.tick_count
    }

    pub fn timer_hz(&self) -> (r: u32)
        ensures
            r == self.timer_hz,
    {
        self.timer_hz
    }

    pub fn uptime_ms(&self) -> (r: u64)
        ensures
            r == self.uptime_ms,
    {
        self.uptime_ms
    }

    /// Whole seconds of uptime.
    pub fn uptime_sec(&self) -> (r: u64)
        ensures
            r == self.uptime_ms / 1000,
    {
        self.uptime_ms() / 1000
    }

    /// Microseconds of uptime: from the HPET counter when there is an HPET,
    /// else from the tick count.
    pub fn uptime_us(&self, counter: u64) -> (r: u64)
        requires
            self.hpet_available ==> counter * self.hpet_period <= u64::MAX,
            !self.hpet_available ==> self.timer_hz > 0 && self.tick_count * 1_000_000 <= u64::MAX,
        ensures
            r == if self.hpet_available {
                ((counter * self.hpet_period) as int / 1_000_000_000int) as u64
            } else {
                ((self.tick_count * 1_000_000) as int / (self.timer_hz as int)) as u64
            },
    {
        if !self.hpet_available {
            return self.tick_count * 1_000_000 / self.timer_hz as u64;
        }
        counter * self.hpet_period / 1_000_000_000
    }
}

/// The PIT channel 0 divisor for `frequency_hz`: the slowest rate for 0,
/// else the base frequency divided by it, kept within 1..=65535.
pub open spec fn pit_divisor(frequency_hz: u32) -> u16 {
    if frequency_hz == 0 {
        0xFFFF
    } else {
        let d = PIT_BASE_FREQ as int / (frequency_hz as int);
        if d > 65535 {
            65535
        } else if d < 1 {
            1
        } else {
            d as u16
        }
    }
}

/// The 8254 programmable interval timer.
pub struct Pit;

impl Pit {
    pub fn divisor(frequency_hz: u32) -> (d: u16)
        ensures
            d == pit_divisor(frequency_hz),
    {
        if frequency_hz == 0 {
            0xFFFF
        } else {
            let d = PIT_BASE_FREQ / frequency_hz as u64;
            if d > 65535 {
                65535
            } else if d < 1 {
                1
            } else {
                d as u16
            }
        }
    }

    /// Sets channel 0 to `frequency_hz` in square wave mode: records the
    /// rate and gives the bytes to send, the command (channel 0, lo/hi
    /// access, mode 3) then the divisor's low and high bytes.
    pub fn init(timer: &mut TimerState, frequency_hz: u32) -> (b: [u8; 3])
        ensures
            *final(timer) == (TimerState { timer_hz: frequency_hz, ..*old(timer) }),
            b@ == seq![
                0x36u8,
                (pit_divisor(frequency_hz) % 256) as u8,
                (pit_divisor(frequency_hz) / 256) as u8,
            ],
    {
        let divisor = Self::divisor(frequency_hz);
        timer.timer_hz = frequency_hz;
        let b = [0x36u8, (divisor % 256) as u8, (divisor / 256) as u8];
        assert(b@ =~= seq![
            0x36u8,
            (pit_divisor(frequency_hz) % 256) as u8,
            (pit_divisor(frequency_hz) / 256) as u8,
        ]);
        b
    }

    /// The count read back as its low then high byte.
    pub fn current_count(lo: u8, hi: u8) -> (c: u16)
        ensures
            c == hi * 256 + lo,
    {
        (hi as u16) * 256 + lo as u16
    }

    /// Channel 2 ticks in `ms` milliseconds, kept to 16 bits.
    pub fn delay_ticks(ms: u32) -> (t: u16)
        ensures
            t == (PIT_BASE_FREQ * ms / 1000) as u16,
    {
        (PIT_BASE_FREQ * ms as u64 / 1000) as u16
    }

    /// The bytes that stop channel 0: one-shot mode, the largest count.
    pub fn disable() -> (b: [u8; 3])
        ensures
            b@ == seq![0x32u8, 0xFFu8, 0xFFu8],
    {
        let b = [0x32u8, 0xFF, 0xFF];
        assert(b@ =~= seq![0x32u8, 0xFFu8, 0xFFu8]);
        b
    }
}

/// The HPET's counter period in femtoseconds, from its capabilities.
pub open spec fn hpet_period_of(caps: u64) -> u64 {
    (caps / 0x1_0000_0000) as u64
}

/// The capabilities offer legacy interrupt routing (bit 15).
pub open spec fn hpet_legacy_of(caps: u64) -> bool {
    (caps / 0x8000) % 2 == 1
}

/// The high precision event timer.
pub struct Hpet;

impl Hpet {
    /// The register base to read the capabilities from, when the ACPI
    /// tables name an HPET.
    pub fn locate(acpi_info: &AcpiInfo) -> (r: Option<PhysAddr>)
        ensures
            r == if acpi_info.hpet_address == 0 {
                None::<usize>
            } else {
                Some(acpi_info.hpet_address)
            },
    {
        if acpi_info.hpet_address == 0 {
            None
        } else {
            Some(acpi_info.hpet_address)
        }
    }

    /// Brings the HPET at `base` up from its capabilities: a period of 0 or
    /// above `HPET_MAX_PERIOD` femtoseconds is refused; else the HPET is
    /// recorded as available and the general configuration to write is
    /// returned (enabled, with legacy routing where offered). The main
    /// counter is then cleared by the caller.
    pub fn init(timer: &mut TimerState, base: PhysAddr, caps: u64) -> (r: Result<u64, &'static str>)
        ensures
            (hpet_period_of(caps) == 0 || hpet_period_of(caps) > HPET_MAX_PERIOD) ==> (r matches Err(
                e,
            ) && e@ == "Invalid HPET period"@) && *final(timer) == (TimerState {
                hpet_base: base,
                ..*old(timer)
            }),
            !(hpet_period_of(caps) == 0 || hpet_period_of(caps) > HPET_MAX_PERIOD) ==> r == Ok::<
                u64,
                &'static str,
            >(if hpet_legacy_of(caps) {
                3u64
            } else {
                1u64
            }) && *final(timer) == (TimerState {
                hpet_base: base,
                hpet_period: hpet_period_of(caps),
                hpet_available: true,
                ..*old(timer)
            }),
    {
        timer.hpet_base = base;
        assert((caps >> 32) & 0xFFFF_FFFF == caps / 0x1_0000_0000) by (bit_vector);
        assert(((caps & 0x8000) != 0) == ((caps / 0x8000) % 2 == 1)) by (bit_vector);
        let period = (caps >> 32) & 0xFFFF_FFFF;
        let legacy_route = (caps & 0x8000) != 0;
        if period == 0 || period > HPET_MAX_PERIOD {
            return Err("Invalid HPET period");
        }
        timer.hpet_period = period;
        timer.hpet_available = true;
        let mut config = HPET_CONFIG_ENABLE;
        if legacy_route {
            config = config | HPET_CONFIG_LEGACY_ROUTE;
            assert(1u64 | 2u64 == 3u64) by (bit_vector);
        }
        Ok(config)
    }

    /// Comparator ticks of timer 0 for `frequency_hz` interrupts per second;
    /// refused without an HPET.
    pub fn setup_periodic(timer: &TimerState, frequency_hz: u32) -> (r: Result<u64, &'static str>)
        requires
            frequency_hz > 0,
            timer.hpet_available ==> timer.hpet_period > 0,
        ensures
            !timer.hpet_available ==> (r matches Err(e) && e@ == "HPET not available"@),
            timer.hpet_available ==> r == Ok::<u64, &'static str>(
                ((FEMTOS_PER_SEC as int / (frequency_hz as int)) / (timer.hpet_period as int)) as u64,
            ),
    {
        if !timer.hpet_available {
            return Err("HPET not available");
        }
        Ok((FEMTOS_PER_SEC / frequency_hz as u64) / timer.hpet_period)
    }

    /// The main counter as read, or 0 without an HPET.
    pub fn counter(timer: &TimerState, main_counter: u64) -> (r: u64)
        ensures
            r == if timer.hpet_available {
                main_counter
            } else {
                0
            },
    {
        if timer.hpet_available {
            main_counter
        } else {
            0
        }
    }
}

/// The timers to start: the PIT at the scheduler's rate, and the HPET's
/// base when the ACPI tables name one.
pub fn init(timer: &mut TimerState, acpi_info: &AcpiInfo) -> (r: ([u8; 3], Option<PhysAddr>))
    ensures
        *final(timer) == (TimerState { timer_hz: SCHEDULER_HZ, ..*old(timer) }),
        r.0@ == seq![
            0x36u8,
            (pit_divisor(SCHEDULER_HZ) % 256) as u8,
            (pit_divisor(SCHEDULER_HZ) / 256) as u8,
        ],
        r.1 == if acpi_info.hpet_address == 0 {
            None::<usize>
        } else {
            Some(acpi_info.hpet_address)
        },
{
    let pit = Pit::init(timer, SCHEDULER_HZ);
    (pit, Hpet::locate(acpi_info))
}

/// Whether the scheduler can take its timing from the HPET.
pub fn switch_to_hpet_if_available(timer: &TimerState) -> (r: bool)
    ensures
        r == timer.hpet_available,
{
    timer.hpet_available
}

} // verus!
