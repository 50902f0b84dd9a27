//! ACPI tables: the root pointer, the system description tables, and the
//! MADT and HPET tables that locate the interrupt controllers and timers.
//! Tables are read from byte buffers holding the firmware's memory.
use vstd::prelude::*;

use crate::bytes::{le16, le32, le64, read_u16, read_u32, read_u64};
use crate::PhysAddr;

verus! {

/// Bytes of the root system description pointer.
pub const RSDP_SIZE: usize = 36;
/// Bytes of the header every system description table starts with.
pub const SDT_HEADER_SIZE: usize = 36;
/// Bytes of the MADT before its entries.
pub const MADT_HEADER_SIZE: usize = 44;
/// Bytes of the HPET table.
pub const HPET_TABLE_SIZE: usize = 56;
/// The longest MADT entry this parser reads.
pub const MADT_MAX_ENTRY: usize = 12;

/// The sum of the first `n` bytes of `d`, modulo 256.
pub open spec fn byte_sum(d: Seq<u8>, n: nat) -> nat
    decreases n,
{
    if n == 0 {
        0
    } else {
        ((byte_sum(d, (n - 1) as nat) + d[n - 1]) % 256) as nat
    }
}

/// Whether the first `n` bytes of `d` sum to zero modulo 256.
pub fn checksum_ok(d: &[u8], n: usize) -> (r: bool)
    requires
        n <= d@.len(),
    ensures
        r == (byte_sum(d@, n as nat) == 0),
{
    let mut sum: u8 = 0;
    let mut i: usize = 0;
    while i < n
        invariant
            i <= n <= d@.len(),
            sum == byte_sum(d@, i as nat),
        decreases n - i,
    {
        sum = sum.wrapping_add(d[i]);
        i = i + 1;
    }
    sum == 0
}

/// `d` holds `sig` from `at` on.
pub open spec fn bytes_at(d: Seq<u8>, at: int, sig: Seq<u8>) -> bool {
    0 <= at && at + sig.len() <= d.len() && d.subrange(at, at + sig.len()) == sig
}

fn matches_at(d: &[u8], at: usize, sig: &[u8]) -> (r: bool)
    ensures
        r == bytes_at(d@, at as int, sig@),
{
    if at > d.len() || sig.len() > d.len() - at {
        return false;
    }
    let n = d.len();
    let mut i: usize = 0;
    while i < sig.len()
        invariant
            i <= sig@.len(),
            n == d@.len(),
            at + sig@.len() <= n,
            forall|j: int| 0 <= j < i ==> d@[at + j] == sig@[j],
        decreases sig@.len() - i,
    {
        if d[at + i] != sig[i] {
            assert(d@.subrange(at as int, at + sig@.len())[i as int] != sig@[i as int]);
            return false;
        }
        i = i + 1;
    }
    assert(d@.subrange(at as int, at + sig@.len()) =~= sig@);
    true
}

/// "RSD PTR ".
pub open spec fn rsdp_signature() -> Seq<u8> {
    seq![0x52u8, 0x53, 0x44, 0x20, 0x50, 0x54, 0x52, 0x20]
}

/// The root system description pointer.
#[derive(Debug, Clone, Copy)]
pub struct Rsdp {
    pub signature: [u8; 8],
    pub checksum: u8,
    pub oem_id: [u8; 6],
    pub revision: u8,
    pub rsdt_address: u32,
    pub length: u32,
    pub xsdt_address: u64,
    pub extended_checksum: u8,
    pub reserved: [u8; 3],
}

/// A root pointer starts at `k` of the first `size` bytes of `d`: an 'R'
/// whose eight bytes lie in the region, spell the signature, and whose
/// 36-byte structure sums to zero.
pub open spec fn rsdp_at(d: Seq<u8>, size: int, k: int) -> bool {
    &&& d[k] == 0x52
    &&& k + 8 <= size
    &&& bytes_at(d, k, rsdp_signature())
    &&& byte_sum(d.subrange(k, k + 36), 36) == 0
}

/// The first 16-byte aligned offset from `k` on where a root pointer starts.
pub open spec fn first_rsdp(d: Seq<u8>, size: int, k: int) -> Option<int>
    decreases size + 16 - k,
{
    if k < 0 || k >= size {
        None
    } else if rsdp_at(d, size, k) {
        Some(k)
    } else {
        first_rsdp(d, size, k + 16)
    }
}

impl Rsdp {
    /// Searches the first `size` bytes of `region` for a root pointer on a
    /// 16-byte boundary; `region` holds the 36 bytes after them too, since a
    /// structure found near the end extends past the region.
    pub fn search_region(region: &[u8], size: usize) -> (r: Option<usize>)
        requires
            size + RSDP_SIZE <= region@.len(),
        ensures
            r == match first_rsdp(region@, size as int, 0) {
                Some(k) => Some(k as usize),
                None => None::<usize>,
            },
    {
        let sig: [u8; 8] = [0x52, 0x53, 0x44, 0x20, 0x50, 0x54, 0x52, 0x20];
        assert(sig@ =~= rsdp_signature());
        let mut offset: usize = 0;
        while offset < size
            invariant
                size + RSDP_SIZE <= region@.len(),
                sig@ == rsdp_signature(),
                offset % 16 == 0,
                first_rsdp(region@, size as int, 0) == first_rsdp(region@, size as int, offset as int),
            decreases size - offset,
        {
            let mut found = false;
            if region[offset] == 0x52 && offset + 8 <= size && matches_at(region, offset, sig.as_slice()) {
                let candidate = &region[offset..offset + RSDP_SIZE];
                if Self::validate_checksum(candidate) {
                    found = true;
                }
            }
            assert(found == rsdp_at(region@, size as int, offset as int));
            if found {
                return Some(offset);
            }
            if size - offset <= 16 {
                assert(first_rsdp(region@, size as int, offset + 16) is None);
                return None;
            }
            offset = offset + 16;
        }
        None
    }

    /// The structure's 36 bytes sum to zero.
    pub fn validate_checksum(bytes: &[u8]) -> (r: bool)
        requires
            bytes@.len() >= RSDP_SIZE,
        ensures
            r == (byte_sum(bytes@, 36) == 0),
    {
        checksum_ok(bytes, RSDP_SIZE)
    }

    /// The root pointer laid out in the first 36 bytes of `b`.
    pub fn from_bytes(b: &[u8]) -> (r: Rsdp)
        requires
            b@.len() >= RSDP_SIZE,
        ensures
            r.signature@ == b@.subrange(0, 8),
            r.checksum == b@[8],
            r.oem_id@ == b@.subrange(9, 15),
            r.revision == b@[15],
            r.rsdt_address == le32(b@, 16),
            r.length == le32(b@, 20),
            r.xsdt_address == le64(b@, 24),
            r.extended_checksum == b@[32],
            r.reserved@ == b@.subrange(33, 36),
    {
        let r = Rsdp {
            signature: [b[0], b[1], b[2], b[3], b[4], b[5], b[6], b[7]],
            checksum: b[8],
            oem_id: [b[9], b[10], b[11], b[12], b[13], b[14]],
            revision: b[15],
            rsdt_address: read_u32(b, 16),
            length: read_u32(b, 20),
            xsdt_address: read_u64(b, 24),
            extended_checksum: b[32],
            reserved: [b[33], b[34], b[35]],
        };
        assert(r.signature@ =~= b@.subrange(0, 8));
        assert(r.oem_id@ =~= b@.subrange(9, 15));
        assert(r.reserved@ =~= b@.subrange(33, 36));
        r
    }

    /// The XSDT's address, for revision 2 and later when it is set.
    pub fn xsdt_address(&self) -> (r: Option<PhysAddr>)
        ensures
            r == if self.revision >= 2 && self.xsdt_address != 0 {
                Some(self.xsdt_address as usize)
            } else {
                None::<usize>
            },
    {
        if self.revision >= 2 && self.xsdt_address != 0 {
            Some(self.xsdt_address as PhysAddr)
        } else {
            None
        }
    }

    pub fn rsdt_address(&self) -> (r: PhysAddr)
        ensures
            r == self.rsdt_address as usize,
    {
        self.rsdt_address as PhysAddr
    }
}

/// The header every system description table starts with.
#[derive(Debug, Clone, Copy)]
pub struct SdtHeader {
    pub signature: [u8; 4],
    pub length: u32,
    pub revision: u8,
    pub checksum: u8,
    pub oem_id: [u8; 6],
    pub oem_table_id: [u8; 8],
    pub oem_revision: u32,
    pub compiler_id: [u8; 4],
    pub compiler_revision: u32,
}

/// The characters of a byte sequence that is valid UTF-8, `None` otherwise.
pub open spec fn utf8_text(b: Seq<u8>) -> Option<Seq<char>> {
    if vstd::utf8::valid_utf8(b) {
        Some(vstd::utf8::decode_utf8(b))
    } else {
        None
    }
}

/// `core::str::from_utf8`: the bytes as text exactly when they are valid
/// UTF-8, decoded one scalar at a time.
#[verifier::external_body]
fn str_from_utf8(b: &[u8]) -> (r: Option<&str>)
    ensures
        match r {
            Some(s) => utf8_text(b@) == Some(s@),
            None => utf8_text(b@) is None,
        },
{
    core::str::from_utf8(b).ok()
}

impl SdtHeader {
    /// The header laid out in the first 36 bytes of `b`.
    pub fn from_bytes(b: &[u8]) -> (r: SdtHeader)
        requires
            b@.len() >= SDT_HEADER_SIZE,
        ensures
            r.signature@ == b@.subrange(0, 4),
            r.length == le32(b@, 4),
            r.revision == b@[8],
            r.checksum == b@[9],
            r.oem_id@ == b@.subrange(10, 16),
            r.oem_table_id@ == b@.subrange(16, 24),
            r.oem_revision == le32(b@, 24),
            r.compiler_id@ == b@.subrange(28, 32),
            r.compiler_revision == le32(b@, 32),
    {
        let r = SdtHeader {
            signature: [b[0], b[1], b[2], b[3]],
            length: read_u32(b, 4),
            revision: b[8],
            checksum: b[9],
            oem_id: [b[10], b[11], b[12], b[13], b[14], b[15]],
            oem_table_id: [b[16], b[17], b[18], b[19], b[20], b[21], b[22], b[23]],
            oem_revision: read_u32(b, 24),
            compiler_id: [b[28], b[29], b[30], b[31]],
            compiler_revision: read_u32(b, 32),
        };
        assert(r.signature@ =~= b@.subrange(0, 4));
        assert(r.oem_id@ =~= b@.subrange(10, 16));
        assert(r.oem_table_id@ =~= b@.subrange(16, 24));
        assert(r.compiler_id@ =~= b@.subrange(28, 32));
        r
    }

    /// The signature as text, or "????" when it is not valid UTF-8.
    pub fn signature_str(&self) -> (r: &str)
        ensures
            r@ == match utf8_text(self.signature@) {
                Some(t) => t,
                None => "????"@,
            },
    {
        match str_from_utf8(self.signature.as_slice()) {
            Some(s) => s,
            None => "????",
        }
    }

    /// The table, whose bytes are `table` from the header on, sums to zero
    /// over its `length` bytes.
    pub fn validate(&self, table: &[u8]) -> (r: bool)
        requires
            self.length <= table@.len(),
        ensures
            r == (byte_sum(table@, self.length as nat) == 0),
    {
        checksum_ok(table, self.length as usize)
    }
}

/// The MADT's fixed part.
#[derive(Debug, Clone, Copy)]
pub struct Madt {
    pub header: SdtHeader,
    pub local_apic_address: u32,
    pub flags: u32,
}

#[derive(Debug, Clone, Copy, PartialEq, Eq, Structural)]
pub enum MadtEntryType {
    LocalApic,
    IoApic,
    InterruptSourceOverride,
    NmiSource,
    LocalApicNmi,
    LocalApicAddressOverride,
    IoSapic,
    LocalSapic,
    PlatformInterruptSource,
    Unknown,
}

/// The entry type with this code; unknown codes read as `Unknown`.
pub open spec fn madt_entry_type_of(v: u8) -> MadtEntryType {
    if v == 0 {
        MadtEntryType::LocalApic
    } else if v == 1 {
        MadtEntryType::IoApic
    } else if v == 2 {
        MadtEntryType::InterruptSourceOverride
    } else if v == 3 {
        MadtEntryType::NmiSource
    } else if v == 4 {
        MadtEntryType::LocalApicNmi
    } else if v == 5 {
        MadtEntryType::LocalApicAddressOverride
    } else if v == 6 {
        MadtEntryType::IoSapic
    } else if v == 7 {
        MadtEntryType::LocalSapic
    } else if v == 8 {
        MadtEntryType::PlatformInterruptSource
    } else {
        MadtEntryType::Unknown
    }
}

impl vstd::std_specs::convert::FromSpecImpl<u8> for MadtEntryType {
    open spec fn obeys_from_spec() -> bool {
        true
    }

    open spec fn from_spec(v: u8) -> Self {
        madt_entry_type_of(v)
    }
}

impl From<u8> for MadtEntryType {
    fn from(v: u8) -> (r: Self) {
        match v {
            0 => MadtEntryType::LocalApic,
            1 => MadtEntryType::IoApic,
            2 => MadtEntryType::InterruptSourceOverride,
            3 => MadtEntryType::NmiSource,
            4 => MadtEntryType::LocalApicNmi,
            5 => MadtEntryType::LocalApicAddressOverride,
            6 => MadtEntryType::IoSapic,
            7 => MadtEntryType::LocalSapic,
            8 => MadtEntryType::PlatformInterruptSource,
            _ => MadtEntryType::Unknown,
        }
    }
}

#[derive(Debug, Clone, Copy)]
pub struct MadtEntryHeader {
    pub entry_type: u8,
    pub length: u8,
}

#[derive(Debug, Clone, Copy)]
pub struct MadtLocalApicEntry {
    pub header: MadtEntryHeader,
    pub processor_id: u8,
    pub apic_id: u8,
    pub flags: u32,
}

#[derive(Debug, Clone, Copy)]
pub struct MadtIoApicEntry {
    pub header: MadtEntryHeader,
    pub io_apic_id: u8,
    pub reserved: u8,
    pub io_apic_address: u32,
    pub global_system_interrupt_base: u32,
}

#[derive(Debug, Clone, Copy)]
pub struct MadtIntSourceOverrideEntry {
    pub header: MadtEntryHeader,
    pub bus_source: u8,
    pub irq_source: u8,
    pub global_system_interrupt: u32,
    pub flags: u16,
}

#[derive(Debug, Clone, Copy)]
pub struct MadtLocalApicAddressOverrideEntry {
    pub header: MadtEntryHeader,
    pub reserved: u16,
    pub local_apic_address: u64,
}

/// A register location in the ACPI generic address format.
#[derive(Debug, Clone, Copy)]
pub struct AcpiGenericAddress {
    pub address_space_id: u8,
    pub register_bit_width: u8,
    pub register_bit_offset: u8,
    pub access_size: u8,
    pub address: u64,
}

impl AcpiGenericAddress {
    pub fn address(&self) -> (r: u64)
        ensures
            r == self.address,
    {
        self.address
    }
}

#[derive(Debug, Clone, Copy)]
pub struct HpetTable {
    pub header: SdtHeader,
    pub event_timer_block_id: u32,
    pub base_address: AcpiGenericAddress,
    pub hpet_number: u8,
    pub minimum_tick: u16,
    pub page_protection: u8,
}

/// The fixed ACPI description table.
#[derive(Debug, Clone, Copy)]
pub struct Fadt {
    pub header: SdtHeader,
    pub firmware_ctrl: u32,
    pub dsdt: u32,
    pub reserved0: u8,
    pub preferred_pm_profile: u8,
    pub sci_interrupt: u16,
    pub smi_command_port: u32,
    pub acpi_enable: u8,
    pub acpi_disable: u8,
    pub s4bios_req: u8,
    pub pstate_cnt: u8,
    pub pm1a_event_block: u32,
    pub pm1b_event_block: u32,
    pub pm1a_control_block: u32,
    pub pm1b_control_block: u32,
    pub pm2_control_block: u32,
    pub pm_timer_block: u32,
    pub gpe0_block: u32,
    pub gpe1_block: u32,
    pub pm1_event_length: u8,
    pub pm1_control_length: u8,
    pub pm2_control_length: u8,
    pub pm_timer_length: u8,
    pub gpe0_block_length: u8,
    pub gpe1_block_length: u8,
    pub gpe1_base: u8,
    pub cstate_cnt: u8,
    pub p_lvl2_lat: u16,
    pub p_lvl3_lat: u16,
    pub flush_size: u16,
    pub flush_stride: u16,
    pub duty_offset: u8,
    pub duty_width: u8,
    pub day_alrm: u8,
    pub mon_alrm: u8,
    pub century: u8,
    pub iapc_boot_arch: u16,
    pub reserved1: u8,
    pub flags: u32,
    pub reset_reg: AcpiGenericAddress,
    pub reset_value: u8,
    pub reserved2: [u8; 3],
    pub x_firmware_ctrl: u64,
    pub x_dsdt: u64,
    pub x_pm1a_event_block: AcpiGenericAddress,
    pub x_pm1b_event_block: AcpiGenericAddress,
    pub x_pm1a_control_block: AcpiGenericAddress,
    pub x_pm1b_control_block: AcpiGenericAddress,
    pub x_pm2_control_block: AcpiGenericAddress,
    pub x_pm_timer_block: AcpiGenericAddress,
    pub x_gpe0_block: AcpiGenericAddress,
    pub x_gpe1_block: AcpiGenericAddress,
}


#[derive(Debug, Clone, Copy, PartialEq, Eq, Structural)]
pub struct ProcessorInfo {
    pub processor_id: u8,
    pub apic_id: u8,
    pub is_enabled: bool,
}

#[derive(Debug, Clone, Copy, PartialEq, Eq, Structural)]
pub struct IntOverride {
    pub bus_source: u8,
    pub irq_source: u8,
    pub global_system_interrupt: u32,
    pub flags: u16,
}

/// What the tables tell about the machine.
#[derive(Debug, Clone, Copy)]
pub struct AcpiInfo {
    pub local_apic_address: PhysAddr,
    pub io_apic_address: PhysAddr,
    pub io_apic_gsi_base: u32,
    pub hpet_address: PhysAddr,
    pub hpet_number: u8,
    pub hpet_min_tick: u16,
    pub processor_count: u8,
    pub processors: [ProcessorInfo; 256],
    pub int_overrides: [IntOverride; 16],
    pub int_override_count: usize,
    pub is_acpi_2: bool,
}

/// The table information as plain values.
pub struct AcpiInfoView {
    pub local_apic_address: PhysAddr,
    pub io_apic_address: PhysAddr,
    pub io_apic_gsi_base: u32,
    pub hpet_address: PhysAddr,
    pub hpet_number: u8,
    pub hpet_min_tick: u16,
    pub processor_count: u8,
    pub processors: Seq<ProcessorInfo>,
    pub int_overrides: Seq<IntOverride>,
    pub int_override_count: usize,
    pub is_acpi_2: bool,
}

impl View for AcpiInfo {
    type V = AcpiInfoView;

    open spec fn view(&self) -> AcpiInfoView {
        AcpiInfoView {
            local_apic_address: self.local_apic_address,
            io_apic_address: self.io_apic_address,
            io_apic_gsi_base: self.io_apic_gsi_base,
            hpet_address: self.hpet_address,
            hpet_number: self.hpet_number,
            hpet_min_tick: self.hpet_min_tick,
            processor_count: self.processor_count,
            processors: self.processors@,
            int_overrides: self.int_overrides@,
            int_override_count: self.int_override_count,
            is_acpi_2: self.is_acpi_2,
        }
    }
}

/// The information before any table is read: the usual local and I/O
/// APIC addresses, everything else zero, every processor and override slot
/// empty.
pub open spec fn default_info() -> AcpiInfoView {
    AcpiInfoView {
        local_apic_address: 0xFEE00000,
        io_apic_address: 0xFEC00000,
        io_apic_gsi_base: 0,
        hpet_address: 0,
        hpet_number: 0,
        hpet_min_tick: 0,
        processor_count: 0,
        processors: Seq::new(256, |k: int| ProcessorInfo { processor_id: 0, apic_id: 0, is_enabled: false }),
        int_overrides: Seq::new(
            16,
            |k: int| IntOverride { bus_source: 0, irq_source: 0, global_system_interrupt: 0, flags: 0 },
        ),
        int_override_count: 0,
        is_acpi_2: false,
    }
}

impl AcpiInfo {
    /// No processors or overrides, and the usual local and I/O APIC
    /// addresses until the tables say otherwise.
    pub fn new() -> (i: Self)
        ensures
            i@.local_apic_address == 0xFEE00000,
            i@.io_apic_address == 0xFEC00000,
            i@.io_apic_gsi_base == 0,
            i@.hpet_address == 0,
            i@.hpet_number == 0,
            i@.hpet_min_tick == 0,
            i@.processor_count == 0,
            i@.processors.len() == 256,
            forall|k: int|
                0 <= k < 256 ==> #[trigger] i@.processors[k] == (ProcessorInfo {
                    processor_id: 0,
                    apic_id: 0,
                    is_enabled: false,
                }),
            i@.int_overrides.len() == 16,
            forall|k: int|
                0 <= k < 16 ==> #[trigger] i@.int_overrides[k] == (IntOverride {
                    bus_source: 0,
                    irq_source: 0,
                    global_system_interrupt: 0,
                    flags: 0,
                }),
            i@.int_override_count == 0,
            !i@.is_acpi_2,
    {
        AcpiInfo {
            local_apic_address: 0xFEE00000,
            io_apic_address: 0xFEC00000,
            io_apic_gsi_base: 0,
            hpet_address: 0,
            hpet_number: 0,
            hpet_min_tick: 0,
            processor_count: 0,
            processors: [ProcessorInfo { processor_id: 0, apic_id: 0, is_enabled: false }; 256],
            int_overrides: [IntOverride {
                bus_source: 0,
                irq_source: 0,
                global_system_interrupt: 0,
                flags: 0,
            }; 16],
            int_override_count: 0,
            is_acpi_2: false,
        }
    }
}

/// The information after one MADT entry at `off`; `None` for a local APIC
/// entry when 255 processors are already recorded (the count is a byte).
pub open spec fn madt_entry(v: AcpiInfoView, d: Seq<u8>, off: int) -> Option<AcpiInfoView> {
    let t = madt_entry_type_of(d[off]);
    if t == MadtEntryType::LocalApic {
        if v.processor_count == 255 {
            None
        } else {
            Some(
                AcpiInfoView {
                    processors: v.processors.update(
                        v.processor_count as int,
                        ProcessorInfo {
                            processor_id: d[off + 2],
                            apic_id: d[off + 3],
                            is_enabled: le32(d, off + 4) % 2 == 1,
                        },
                    ),
                    processor_count: (v.processor_count + 1) as u8,
                    ..v
                },
            )
        }
    } else if t == MadtEntryType::IoApic {
        Some(
            AcpiInfoView {
                io_apic_address: le32(d, off + 4) as usize,
                io_apic_gsi_base: le32(d, off + 8) as u32,
                ..v
            },
        )
    } else if t == MadtEntryType::InterruptSourceOverride {
        if v.int_override_count < 16 {
            Some(
                AcpiInfoView {
                    int_overrides: v.int_overrides.update(
                        v.int_override_count as int,
                        IntOverride {
                            bus_source: d[off + 2],
                            irq_source: d[off + 3],
                            global_system_interrupt: le32(d, off + 4) as u32,
                            flags: le16(d, off + 8) as u16,
                        },
                    ),
                    int_override_count: (v.int_override_count + 1) as usize,
                    ..v
                },
            )
        } else {
            Some(v)
        }
    } else if t == MadtEntryType::LocalApicAddressOverride {
        Some(AcpiInfoView { local_apic_address: le64(d, off + 4) as usize, ..v })
    } else {
        Some(v)
    }
}

/// The HPET table layout: the timer block's address is the 64-bit value at
/// bytes 44..52, the HPET number is byte 52 and the minimum tick the 16-bit
/// value at bytes 53..55; the MADT's local APIC address is the 32-bit value
/// at bytes 36..40, read before its entries.
pub proof fn law_table_fields(v: AcpiInfoView, d: Seq<u8>)
    ensures
        hpet_effect(v, d).hpet_address == (d[44] + 0x100 * d[45] + 0x1_0000 * d[46] + 0x100_0000 * d[47]
            + 0x1_0000_0000 * (d[48] + 0x100 * d[49] + 0x1_0000 * d[50] + 0x100_0000 * d[51])) as usize,
        hpet_effect(v, d).hpet_number == d[52],
        hpet_effect(v, d).hpet_min_tick == (d[53] + 0x100 * d[54]) as u16,
        hpet_effect(v, d).processors == v.processors && hpet_effect(v, d).int_overrides == v.int_overrides,
        le32(d, 4) <= 44 ==> madt_effect(v, d) == Some(
            AcpiInfoView {
                local_apic_address: (d[36] + 0x100 * d[37] + 0x1_0000 * d[38] + 0x100_0000 * d[39]) as usize,
                ..v
            },
        ),
{
}

/// The MADT entry layouts: an interrupt source override (type 2) records,
/// in the next free override slot, the bus at byte 2, the source IRQ at
/// byte 3, the global system interrupt at bytes 4..8 and the flags at bytes
/// 8..10 of the entry; a local APIC (type 0) records the processor at byte
/// 2, the APIC ID at byte 3 and bit 0 of the flags at bytes 4..8; an I/O
/// APIC (type 1) gives its address at bytes 4..8 and its interrupt base at
/// bytes 8..12. Nothing else changes.
pub proof fn law_madt_entry_fields(v: AcpiInfoView, d: Seq<u8>, off: int)
    ensures
        d[off] == 2 && v.int_override_count < 16 ==> madt_entry(v, d, off) == Some(
            AcpiInfoView {
                int_overrides: v.int_overrides.update(
                    v.int_override_count as int,
                    IntOverride {
                        bus_source: d[off + 2],
                        irq_source: d[off + 3],
                        global_system_interrupt: (d[off + 4] + 0x100 * d[off + 5] + 0x1_0000 * d[off + 6]
                            + 0x100_0000 * d[off + 7]) as u32,
                        flags: (d[off + 8] + 0x100 * d[off + 9]) as u16,
                    },
                ),
                int_override_count: (v.int_override_count + 1) as usize,
                ..v
            },
        ),
        d[off] == 2 && v.int_override_count >= 16 ==> madt_entry(v, d, off) == Some(v),
        d[off] == 0 && v.processor_count < 255 ==> madt_entry(v, d, off) == Some(
            AcpiInfoView {
                processors: v.processors.update(
                    v.processor_count as int,
                    ProcessorInfo { processor_id: d[off + 2], apic_id: d[off + 3], is_enabled: d[off + 4] % 2 == 1 },
                ),
                processor_count: (v.processor_count + 1) as u8,
                ..v
            },
        ),
        d[off] == 1 ==> madt_entry(v, d, off) == Some(
            AcpiInfoView {
                io_apic_address: (d[off + 4] + 0x100 * d[off + 5] + 0x1_0000 * d[off + 6] + 0x100_0000 * d[off
                    + 7]) as usize,
                io_apic_gsi_base: (d[off + 8] + 0x100 * d[off + 9] + 0x1_0000 * d[off + 10] + 0x100_0000 * d[off
                    + 11]) as u32,
                ..v
            },
        ),
{
    assert(le32(d, off + 4) % 2 == d[off + 4] % 2);
}

/// The information after the MADT entries from `off` up to `total`: each
/// entry's length byte leads to the next; a zero length ends the walk.
pub open spec fn madt_entries(v: AcpiInfoView, d: Seq<u8>, off: int, total: int) -> Option<
    AcpiInfoView,
>
    decreases total + 256 - off,
{
    if off < 0 || off >= total {
        Some(v)
    } else {
        let step = d[off + 1] as int;
        match madt_entry(v, d, off) {
            None => None,
            Some(w) => if step <= 0 {
                Some(w)
            } else {
                madt_entries(w, d, off + step, total)
            },
        }
    }
}

/// The information after a whole MADT: its local APIC address, then its
/// entries.
pub open spec fn madt_effect(v: AcpiInfoView, d: Seq<u8>) -> Option<AcpiInfoView> {
    madt_entries(
        AcpiInfoView { local_apic_address: le32(d, 36) as usize, ..v },
        d,
        MADT_HEADER_SIZE as int,
        le32(d, 4),
    )
}

/// A MADT buffer holds the fixed part and, past the table's length, room for
/// the longest entry an offset below the length can start.
pub open spec fn madt_fits(d: Seq<u8>) -> bool {
    d.len() >= MADT_HEADER_SIZE && le32(d, 4) + MADT_MAX_ENTRY <= d.len()
}

/// The information after an HPET table.
pub open spec fn hpet_effect(v: AcpiInfoView, d: Seq<u8>) -> AcpiInfoView {
    AcpiInfoView {
        hpet_address: le64(d, 44) as usize,
        hpet_number: d[52],
        hpet_min_tick: le16(d, 53) as u16,
        ..v
    }
}

/// "APIC", "HPET", "XSDT" and "RSDT".
pub open spec fn sig_apic() -> Seq<u8> {
    seq![0x41u8, 0x50, 0x49, 0x43]
}

pub open spec fn sig_hpet() -> Seq<u8> {
    seq![0x48u8, 0x50, 0x45, 0x54]
}

pub open spec fn sig_xsdt() -> Seq<u8> {
    seq![0x58u8, 0x53, 0x44, 0x54]
}

pub open spec fn sig_rsdt() -> Seq<u8> {
    seq![0x52u8, 0x53, 0x44, 0x54]
}

/// The information after a table of any kind: MADT and HPET tables are
/// read, the FADT and unknown tables are skipped.
pub open spec fn table_effect(v: AcpiInfoView, d: Seq<u8>) -> Option<AcpiInfoView> {
    if bytes_at(d, 0, sig_apic()) {
        madt_effect(v, d)
    } else if bytes_at(d, 0, sig_hpet()) {
        Some(hpet_effect(v, d))
    } else {
        Some(v)
    }
}

/// A table buffer holds what reading its kind of table touches.
pub open spec fn table_fits(d: Seq<u8>) -> bool {
    &&& d.len() >= SDT_HEADER_SIZE
    &&& bytes_at(d, 0, sig_apic()) ==> madt_fits(d)
    &&& bytes_at(d, 0, sig_hpet()) ==> d.len() >= HPET_TABLE_SIZE
}

/// The nonzero table addresses among entries `i..count` of a root table
/// whose entries are `width` bytes (8 in the XSDT, 4 in the RSDT).
pub open spec fn root_entries(d: Seq<u8>, i: int, count: int, width: int) -> Seq<usize>
    decreases count - i,
{
    if i < 0 || i >= count {
        Seq::empty()
    } else {
        let raw = if width == 8 {
            le64(d, 36 + 8 * i)
        } else {
            le32(d, 36 + 4 * i)
        };
        let a = raw as usize;
        if a == 0 {
            root_entries(d, i + 1, count, width)
        } else {
            seq![a] + root_entries(d, i + 1, count, width)
        }
    }
}

/// A root table (`sig`, entries of `width` bytes) can be read: its length
/// fits the buffer, and a table that passes the signature and checksum
/// checks is at least a header long.
pub open spec fn root_fits(d: Seq<u8>, sig: Seq<u8>) -> bool {
    &&& d.len() >= SDT_HEADER_SIZE
    &&& le32(d, 4) <= d.len()
    &&& (bytes_at(d, 0, sig) && byte_sum(d, le32(d, 4) as nat) == 0) ==> le32(d, 4)
        >= SDT_HEADER_SIZE
}

/// Which root table lists the others.
#[derive(Debug, Clone, Copy, PartialEq, Eq, Structural)]
pub enum RootTable {
    Xsdt(PhysAddr),
    Rsdt(PhysAddr),
}

/// Collects what the ACPI tables say.
pub struct AcpiParser {
    info: AcpiInfo,
}

impl AcpiParser {
    pub closed spec fn info_view(&self) -> AcpiInfoView {
        self.info@
    }

    pub fn new() -> (p: Self)
        ensures
            p.info_view() == default_info(),
            p.info_view().local_apic_address == 0xFEE00000,
            p.info_view().io_apic_address == 0xFEC00000,
            p.info_view().processor_count == 0,
            p.info_view().processors.len() == 256,
            p.info_view().int_override_count == 0,
            p.info_view().int_overrides.len() == 16,
            p.info_view().hpet_address == 0,
            !p.info_view().is_acpi_2,
    {
        let info = AcpiInfo::new();
        assert(info@.processors =~= default_info().processors);
        assert(info@.int_overrides =~= default_info().int_overrides);
        AcpiParser { info }
    }

    /// Notes the ACPI revision from the root pointer and picks the root
    /// table: the XSDT where the pointer gives one, else the RSDT.
    pub fn root_table(&mut self, rsdp: &Rsdp) -> (r: RootTable)
        ensures
            final(self).info_view() == (AcpiInfoView {
                is_acpi_2: rsdp.revision >= 2,
                ..old(self).info_view()
            }),
            r == (if rsdp.revision >= 2 && rsdp.xsdt_address != 0 {
                RootTable::Xsdt(rsdp.xsdt_address as usize)
            } else {
                RootTable::Rsdt(rsdp.rsdt_address as usize)
            }),
    {
        self.info.is_acpi_2 = rsdp.revision >= 2;
        match rsdp.xsdt_address() {
            Some(a) => RootTable::Xsdt(a),
            None => RootTable::Rsdt(rsdp.rsdt_address()),
        }
    }

    fn root_table_entries(&self, table: &[u8], sig: &[u8], width: usize, bad_sig: &'static str, bad_sum: &'static str) -> (r: Result<Vec<PhysAddr>, &'static str>)
        requires
            root_fits(table@, sig@),
            width == 8 || width == 4,
        ensures
            match r {
                Ok(v) => bytes_at(table@, 0, sig@) && byte_sum(table@, le32(table@, 4) as nat) == 0
                    && v@ == root_entries(table@, 0, (le32(table@, 4) - 36) / width as int, width as int),
                Err(e) => if !bytes_at(table@, 0, sig@) {
                    e == bad_sig
                } else {
                    byte_sum(table@, le32(table@, 4) as nat) != 0 && e == bad_sum
                },
            },
    {
        let header = SdtHeader::from_bytes(table);
        if !matches_at(table, 0, sig) {
            return Err(bad_sig);
        }
        if !header.validate(table) {
            return Err(bad_sum);
        }
        let entry_count = (header.length as usize - SDT_HEADER_SIZE) / width;
        let ghost count = entry_count as int;
        let mut out: Vec<PhysAddr> = Vec::new();
        let mut i: usize = 0;
        proof {
            assert(entry_count * width <= header.length - 36) by (nonlinear_arith)
                requires
                    entry_count == (header.length - 36) / width as int,
                    width > 0,
                    header.length >= 36,
            ;
        }
        assert(out@ + root_entries(table@, 0, count, width as int) =~= root_entries(table@, 0, count, width as int));
        while i < entry_count
            invariant
                i <= entry_count,
                entry_count * width <= header.length - 36,
                header.length <= table@.len(),
                width == 8 || width == 4,
                count == entry_count,
                out@ + root_entries(table@, i as int, count, width as int) == root_entries(
                    table@,
                    0,
                    count,
                    width as int,
                ),
            decreases entry_count - i,
        {
            proof {
                assert(i * width + width <= entry_count * width) by (nonlinear_arith)
                    requires
                        i < entry_count,
                        width > 0,
                ;
            }
            let addr: PhysAddr = if width == 8 {
                read_u64(table, SDT_HEADER_SIZE + i * 8) as PhysAddr
            } else {
                read_u32(table, SDT_HEADER_SIZE + i * 4) as PhysAddr
            };
            let ghost before = out@;
            if addr != 0 {
                out.push(addr);
            }
            assert(out@ + root_entries(table@, i + 1, count, width as int) =~= before + root_entries(
                table@,
                i as int,
                count,
                width as int,
            ));
            i = i + 1;
        }
        assert(out@ =~= out@ + root_entries(table@, i as int, count, width as int));
        Ok(out)
    }

    /// The addresses of the tables the XSDT lists (zero entries skipped).
    pub fn parse_xsdt(&self, xsdt: &[u8]) -> (r: Result<Vec<PhysAddr>, &'static str>)
        requires
            root_fits(xsdt@, sig_xsdt()),
        ensures
            match r {
                Ok(v) => bytes_at(xsdt@, 0, sig_xsdt()) && byte_sum(xsdt@, le32(xsdt@, 4) as nat) == 0
                    && v@ == root_entries(xsdt@, 0, (le32(xsdt@, 4) - 36) / 8, 8),
                Err(e) => if !bytes_at(xsdt@, 0, sig_xsdt()) {
                    e@ == "Invalid XSDT signature"@
                } else {
                    byte_sum(xsdt@, le32(xsdt@, 4) as nat) != 0 && e@ == "XSDT checksum invalid"@
                },
            },
    {
        let sig: [u8; 4] = [0x58, 0x53, 0x44, 0x54];
        assert(sig@ =~= sig_xsdt());
        self.root_table_entries(xsdt, sig.as_slice(), 8, "Invalid XSDT signature", "XSDT checksum invalid")
    }

    /// The addresses of the tables the RSDT lists (zero entries skipped).
    pub fn parse_rsdt(&self, rsdt: &[u8]) -> (r: Result<Vec<PhysAddr>, &'static str>)
        requires
            root_fits(rsdt@, sig_rsdt()),
        ensures
            match r {
                Ok(v) => bytes_at(rsdt@, 0, sig_rsdt()) && byte_sum(rsdt@, le32(rsdt@, 4) as nat) == 0
                    && v@ == root_entries(rsdt@, 0, (le32(rsdt@, 4) - 36) / 4, 4),
                Err(e) => if !bytes_at(rsdt@, 0, sig_rsdt()) {
                    e@ == "Invalid RSDT signature"@
                } else {
                    byte_sum(rsdt@, le32(rsdt@, 4) as nat) != 0 && e@ == "RSDT checksum invalid"@
                },
            },
    {
        let sig: [u8; 4] = [0x52, 0x53, 0x44, 0x54];
        assert(sig@ =~= sig_rsdt());
        self.root_table_entries(rsdt, sig.as_slice(), 4, "Invalid RSDT signature", "RSDT checksum invalid")
    }

    /// Reads one table: a MADT or HPET table updates the information, any
    /// other table is skipped.
    pub fn parse_table(&mut self, table: &[u8]) -> (r: Result<(), &'static str>)
        requires
            table_fits(table@),
            table_effect(old(self).info_view(), table@) is Some,
        ensures
            r is Ok,
            final(self).info_view() == table_effect(old(self).info_view(), table@)->0,
    {
        let apic: [u8; 4] = [0x41, 0x50, 0x49, 0x43];
        let hpet: [u8; 4] = [0x48, 0x50, 0x45, 0x54];
        assert(apic@ =~= sig_apic());
        assert(hpet@ =~= sig_hpet());
        if matches_at(table, 0, apic.as_slice()) {
            self.parse_madt(table)
        } else if matches_at(table, 0, hpet.as_slice()) {
            self.parse_hpet(table)
        } else {
            Ok(())
        }
    }

    /// Whether `table` can be read without the processor count passing 255:
    /// false only for a MADT whose local APIC entries, with those already
    /// recorded, are more than a byte counts.
    pub fn table_has_room(&self, table: &[u8]) -> (r: bool)
        requires
            table_fits(table@),
        ensures
            r == (table_effect(self.info_view(), table@) is Some),
    {
        let apic: [u8; 4] = [0x41, 0x50, 0x49, 0x43];
        assert(apic@ =~= sig_apic());
        if !matches_at(table, 0, apic.as_slice()) {
            return true;
        }
        let len = table.len();
        let total_length = read_u32(table, 4) as usize;
        let mut offset: usize = MADT_HEADER_SIZE;
        let mut count: u8 = self.info.processor_count;
        let ghost mut gv = AcpiInfoView { local_apic_address: le32(table@, 36) as usize, ..self.info@ };
        let ghost goal = madt_effect(self.info@, table@);
        while offset < total_length
            invariant_except_break
                (madt_entries(gv, table@, offset as int, total_length as int) is Some) == (goal is Some),
            invariant
                len == table@.len(),
                total_length == le32(table@, 4),
                total_length + MADT_MAX_ENTRY <= len,
                count == gv.processor_count,
                goal == madt_effect(self.info@, table@),
                bytes_at(table@, 0, sig_apic()),
            ensures
                goal is Some,
            decreases total_length - offset,
        {
            let entry_len = table[offset + 1];
            match MadtEntryType::from(table[offset]) {
                MadtEntryType::LocalApic => {
                    if count == 255 {
                        assert(madt_entry(gv, table@, offset as int) is None);
                        assert(madt_entries(gv, table@, offset as int, total_length as int) is None);
                        return false;
                    }
                    count = count + 1;
                },
                _ => {},
            }
            let ghost before = gv;
            proof {
                gv = madt_entry(gv, table@, offset as int)->0;
            }
            if entry_len == 0 {
                break;
            }
            if entry_len as usize >= total_length - offset {
                assert(madt_entries(gv, table@, offset + entry_len, total_length as int) == Some(gv));
                break;
            }
            offset = offset + entry_len as usize;
        }
        true
    }

    /// Reads a MADT: the local APIC address, then each entry (see
    /// `madt_entries`).
    pub fn parse_madt(&mut self, madt: &[u8]) -> (r: Result<(), &'static str>)
        requires
            madt_fits(madt@),
            madt_effect(old(self).info_view(), madt@) is Some,
        ensures
            r is Ok,
            final(self).info_view() == madt_effect(old(self).info_view(), madt@)->0,
    {
        let len = madt.len();
        self.info.local_apic_address = read_u32(madt, 36) as PhysAddr;
        let total_length = read_u32(madt, 4) as usize;
        let mut offset: usize = MADT_HEADER_SIZE;
        let ghost goal = madt_effect(old(self).info_view(), madt@);
        while offset < total_length
            invariant_except_break
                madt_entries(self.info@, madt@, offset as int, total_length as int) == goal,
            invariant
                len == madt@.len(),
                total_length == le32(madt@, 4),
                total_length + MADT_MAX_ENTRY <= len,
                self.info@.processors.len() == 256,
                self.info@.int_overrides.len() == 16,
                goal is Some,
            ensures
                Some(self.info@) == goal,
            decreases total_length - offset,
        {
            let entry_type = madt[offset];
            let entry_len = madt[offset + 1];
            match MadtEntryType::from(entry_type) {
                MadtEntryType::LocalApic => {
                    let flags = read_u32(madt, offset + 4);
                    let count = self.info.processor_count;
                    self.info.processors.set(
                        count as usize,
                        ProcessorInfo {
                            processor_id: madt[offset + 2],
                            apic_id: madt[offset + 3],
                            is_enabled: flags % 2 != 0,
                        },
                    );
                    self.info.processor_count = count + 1;
                },
                MadtEntryType::IoApic => {
                    self.info.io_apic_address = read_u32(madt, offset + 4) as PhysAddr;
                    self.info.io_apic_gsi_base = read_u32(madt, offset + 8);
                },
                MadtEntryType::InterruptSourceOverride => {
                    let count = self.info.int_override_count;
                    if count < 16 {
                        self.info.int_overrides.set(
                            count,
                            IntOverride {
                                bus_source: madt[offset + 2],
                                irq_source: madt[offset + 3],
                                global_system_interrupt: read_u32(madt, offset + 4),
                                flags: read_u16(madt, offset + 8),
                            },
                        );
                        self.info.int_override_count = count + 1;
                    }
                },
                MadtEntryType::LocalApicAddressOverride => {
                    self.info.local_apic_address = read_u64(madt, offset + 4) as PhysAddr;
                },
                _ => {},
            }
            if entry_len == 0 {
                break;
            }
            if entry_len as usize >= total_length - offset {
                assert(madt_entries(self.info@, madt@, offset + entry_len, total_length as int) == Some(
                    self.info@,
                ));
                break;
            }
            offset = offset + entry_len as usize;
        }
        Ok(())
    }

    /// Reads an HPET table: the timer block's address, number and minimum
    /// tick.
    pub fn parse_hpet(&mut self, hpet: &[u8]) -> (r: Result<(), &'static str>)
        requires
            hpet@.len() >= HPET_TABLE_SIZE,
        ensures
            r is Ok,
            final(self).info_view() == hpet_effect(old(self).info_view(), hpet@),
    {
        self.info.hpet_address = read_u64(hpet, 44) as PhysAddr;
        self.info.hpet_number = hpet[52];
        self.info.hpet_min_tick = read_u16(hpet, 53);
        Ok(())
    }

    pub fn info(&self) -> (r: &AcpiInfo)
        ensures
            r@ == self.info_view(),
    {
        &self.info
    }
}

} // verus!
