use deltaos::acpi::{
    checksum_ok, AcpiInfo, AcpiParser, MadtEntryType, RootTable, Rsdp, SdtHeader,
};
use deltaos::apic::{IcrWait, IoApic, IrqRoute, LocalApic, RegWrite, LAPIC_EOI, LAPIC_ICR_HIGH, LAPIC_ICR_LOW};
use deltaos::module::manager::{ModuleManager, ModuleState, SymbolTable, SymbolType};
use deltaos::timer::{Hpet, Pit, TimerState};
use deltaos::KernelError;

#[test]
fn modules_load_start_and_unload() {
    let mut m = ModuleManager::new(0x10, 0x20, 0x30, 0x40);
    let id = m.load_module("net").unwrap();
    assert_eq!(id, 1);
    let info = m.get_module_info(id).unwrap();
    assert_eq!(info.name, "net");
    assert_eq!(info.state, ModuleState::Loaded);
    assert_eq!(info.version, (0, 1, 0));
    assert_eq!(m.load_module("net"), Err(KernelError::PageAlreadyMapped));
    assert_eq!(m.load_module("fs"), Ok(2));
    // Unloading needs a running or stopped module.
    assert_eq!(m.unload_module(id), Err(KernelError::InvalidArgument));
    assert_eq!(m.init_module(id), Ok(()));
    assert_eq!(m.get_module_info(id).unwrap().state, ModuleState::Running);
    assert_eq!(m.init_module(id), Err(KernelError::InvalidArgument));
    assert_eq!(m.init_module(99), Err(KernelError::ModuleNotFound));
    assert_eq!(m.unload_module(id), Ok(()));
    assert!(m.get_module_info(id).is_none());
    assert_eq!(m.unload_module(id), Err(KernelError::ModuleNotFound));
    let list = m.list_modules();
    assert_eq!(list.len(), 1);
    assert_eq!(list[0].name, "fs");
    assert_eq!(m.load_module("usb"), Ok(3));
    let ids: Vec<u64> = m.list_modules().iter().map(|i| i.id).collect();
    assert_eq!(ids, vec![2, 3]);
    // A name that is loaded cannot be loaded again, so names stay distinct.
    assert_eq!(m.load_module("usb"), Err(KernelError::PageAlreadyMapped));
    let names: Vec<String> = m.list_modules().iter().map(|i| i.name.clone()).collect();
    assert_eq!(names, vec!["fs".to_string(), "usb".to_string()]);
}

#[test]
fn kernel_symbols_resolve() {
    let mut m = ModuleManager::new(0x10, 0x20, 0x30, 0x40);
    assert_eq!(m.resolve_symbol("inb"), Some(0x10));
    assert_eq!(m.resolve_symbol("outl"), Some(0x40));
    assert_eq!(m.resolve_symbol("kmalloc"), Some(0));
    assert_eq!(m.resolve_symbol("missing"), None);
    m.register_symbol("driver_init", 0xABC);
    assert_eq!(m.resolve_symbol("driver_init"), Some(0xABC));
    m.register_symbol("inb", 0x11);
    assert_eq!(m.resolve_symbol("inb"), Some(0x11));
    m.set_ramdisk(0x100000, 0x2000);
}

#[test]
fn symbol_table_lists_in_name_order() {
    let mut t = SymbolTable::new();
    t.register("zeta", 3);
    t.register("alpha", 1);
    t.register("mid", 2);
    t.register("alpha", 4);
    assert_eq!(t.lookup("alpha"), Some(4));
    let all = t.all_symbols();
    let names: Vec<&str> = all.iter().map(|s| s.name.as_str()).collect();
    assert_eq!(names, vec!["alpha", "mid", "zeta"]);
    assert_eq!(all[0].addr, 4);
    assert_eq!(all[1].addr, 2);
    assert_eq!(all[2].addr, 3);
    assert_eq!(all[0].symbol_type, SymbolType::Unknown);
}

fn rsdp_bytes(revision: u8, rsdt: u32, xsdt: u64) -> Vec<u8> {
    let mut b = vec![0u8; 36];
    b[0..8].copy_from_slice(b"RSD PTR ");
    b[15] = revision;
    b[16..20].copy_from_slice(&rsdt.to_le_bytes());
    b[20..24].copy_from_slice(&36u32.to_le_bytes());
    b[24..32].copy_from_slice(&xsdt.to_le_bytes());
    let sum: u8 = b.iter().fold(0u8, |a, &x| a.wrapping_add(x));
    b[8] = 0u8.wrapping_sub(sum);
    b
}

#[test]
fn rsdp_search_and_fields() {
    let mut region = vec![0u8; 256 + 36];
    let r = rsdp_bytes(2, 0x1000, 0x2000);
    region[48..84].copy_from_slice(&r);
    assert_eq!(Rsdp::search_region(&region, 256), Some(48));
    assert!(Rsdp::validate_checksum(&r));
    let rsdp = Rsdp::from_bytes(&r);
    assert_eq!(rsdp.revision, 2);
    assert_eq!(rsdp.xsdt_address(), Some(0x2000));
    assert_eq!(rsdp.rsdt_address(), 0x1000);
    let old = Rsdp::from_bytes(&rsdp_bytes(0, 0x1000, 0x2000));
    assert_eq!(old.xsdt_address(), None);
    // A bad checksum is skipped.
    region[56] ^= 1;
    assert_eq!(Rsdp::search_region(&region, 256), None);
}

fn header(sig: &[u8; 4], len: u32) -> Vec<u8> {
    let mut b = vec![0u8; 36];
    b[0..4].copy_from_slice(sig);
    b[4..8].copy_from_slice(&len.to_le_bytes());
    b
}

fn fix_checksum(b: &mut Vec<u8>, len: usize) {
    b[9] = 0;
    let sum: u8 = b[..len].iter().fold(0u8, |a, &x| a.wrapping_add(x));
    b[9] = 0u8.wrapping_sub(sum);
}

#[test]
fn sdt_header_and_root_tables() {
    let mut x = header(b"XSDT", 36 + 16);
    x.extend_from_slice(&0x5000u64.to_le_bytes());
    x.extend_from_slice(&0u64.to_le_bytes());
    fix_checksum(&mut x, 52);
    let h = SdtHeader::from_bytes(&x);
    assert_eq!(h.signature_str(), "XSDT");
    assert_eq!(h.length, 52);
    assert!(h.validate(&x));
    let p = AcpiParser::new();
    assert_eq!(p.parse_xsdt(&x), Ok(vec![0x5000]));
    assert_eq!(p.parse_rsdt(&x), Err("Invalid RSDT signature"));
    x[40] = 1;
    assert_eq!(p.parse_xsdt(&x), Err("XSDT checksum invalid"));
    let mut r = header(b"RSDT", 36 + 8);
    r.extend_from_slice(&0x6000u32.to_le_bytes());
    r.extend_from_slice(&0x7000u32.to_le_bytes());
    fix_checksum(&mut r, 44);
    assert_eq!(p.parse_rsdt(&r), Ok(vec![0x6000, 0x7000]));
    assert!(checksum_ok(&r, 44));
}

#[test]
fn madt_entries_fill_the_info() {
    let mut m = header(b"APIC", 0);
    m.extend_from_slice(&0xFEE0_0000u32.to_le_bytes());
    m.extend_from_slice(&1u32.to_le_bytes());
    // Local APIC: processor 0, APIC 0, enabled.
    m.extend_from_slice(&[0, 8, 0, 0, 1, 0, 0, 0]);
    // Local APIC: processor 1, APIC 2, disabled.
    m.extend_from_slice(&[0, 8, 1, 2, 0, 0, 0, 0]);
    // I/O APIC at 0xFEC00000, interrupt base 0.
    m.extend_from_slice(&[1, 12, 0, 0, 0x00, 0x00, 0xC0, 0xFE, 0, 0, 0, 0]);
    // Override: bus 0, IRQ 0 to GSI 2, flags 0.
    m.extend_from_slice(&[2, 10, 0, 0, 2, 0, 0, 0, 0, 0]);
    let len = m.len() as u32;
    m[4..8].copy_from_slice(&len.to_le_bytes());
    m.extend_from_slice(&[0u8; 12]);
    let mut p = AcpiParser::new();
    assert_eq!(p.parse_table(&m), Ok(()));
    let info = p.info();
    assert_eq!(info.processor_count, 2);
    assert!(info.processors[0].is_enabled);
    assert_eq!(info.processors[1].apic_id, 2);
    assert!(!info.processors[1].is_enabled);
    assert_eq!(info.io_apic_address, 0xFEC0_0000);
    assert_eq!(info.int_override_count, 1);
    assert_eq!(info.int_overrides[0].global_system_interrupt, 2);
    assert_eq!(info.local_apic_address, 0xFEE0_0000);
}

/// A MADT listing `n` local APICs.
fn madt_with_processors(n: usize) -> Vec<u8> {
    let mut m = header(b"APIC", 0);
    m.extend_from_slice(&0xFEE0_0000u32.to_le_bytes());
    m.extend_from_slice(&1u32.to_le_bytes());
    for i in 0..n {
        m.extend_from_slice(&[0, 8, i as u8, i as u8, 1, 0, 0, 0]);
    }
    let len = m.len() as u32;
    m[4..8].copy_from_slice(&len.to_le_bytes());
    m.extend_from_slice(&[0u8; 12]);
    m
}

#[test]
fn madt_processor_count_limit() {
    let mut p = AcpiParser::new();
    let full = madt_with_processors(255);
    assert!(p.table_has_room(&full));
    assert!(!p.table_has_room(&madt_with_processors(256)));
    assert_eq!(p.parse_table(&full), Ok(()));
    assert_eq!(p.info().processor_count, 255);
    assert!(!p.table_has_room(&madt_with_processors(1)));
    assert!(p.table_has_room(&madt_with_processors(0)));
    assert!(p.table_has_room(&header(b"FACP", 36)));
}

#[test]
fn hpet_table_and_root_choice() {
    let mut h = header(b"HPET", 56);
    h.extend_from_slice(&[0u8; 20]);
    h[44..52].copy_from_slice(&0xFED0_0000u64.to_le_bytes());
    h[52] = 1;
    h[53] = 0x80;
    let mut p = AcpiParser::new();
    assert_eq!(p.parse_table(&h), Ok(()));
    assert_eq!(p.info().hpet_address, 0xFED0_0000);
    assert_eq!(p.info().hpet_number, 1);
    assert_eq!(p.info().hpet_min_tick, 0x80);
    let rsdp = Rsdp::from_bytes(&rsdp_bytes(2, 0x1000, 0x2000));
    assert_eq!(p.root_table(&rsdp), RootTable::Xsdt(0x2000));
    assert!(p.info().is_acpi_2);
    let rsdp = Rsdp::from_bytes(&rsdp_bytes(0, 0x1000, 0));
    assert_eq!(p.root_table(&rsdp), RootTable::Rsdt(0x1000));
    assert_eq!(MadtEntryType::from(1u8), MadtEntryType::IoApic);
    assert_eq!(MadtEntryType::from(9u8), MadtEntryType::Unknown);
}

#[test]
fn acpi_info_defaults() {
    let i = AcpiInfo::new();
    assert_eq!(i.local_apic_address, 0xFEE0_0000);
    assert_eq!(i.io_apic_address, 0xFEC0_0000);
    assert_eq!(i.processor_count, 0);
    assert!(!i.is_acpi_2);
}

#[test]
fn local_apic_register_values() {
    let mut l = LocalApic::new();
    assert_eq!(l.eoi(), None);
    assert_eq!(l.id(0x0300_0000), 0);
    let info = AcpiInfo::new();
    let w = l.init(&info);
    assert_eq!(w.len(), 9);
    assert_eq!(w[8].value, 0x1FF);
    assert_eq!(l.confirm_enabled(0), Err("Failed to enable Local APIC"));
    assert!(!l.is_available());
    assert_eq!(l.confirm_enabled(0x1FF), Ok(()));
    assert!(l.is_available() && l.is_using_apic());
    assert_eq!(l.eoi(), Some(RegWrite { offset: LAPIC_EOI, value: 0 }));
    assert_eq!(l.id(0x0300_0000), 3);
    let w = LocalApic::send_init(2);
    assert_eq!(w[0], RegWrite { offset: LAPIC_ICR_HIGH, value: 0x0200_0000 });
    assert_eq!(w[1], RegWrite { offset: LAPIC_ICR_LOW, value: 0x0050_4000 });
    let w = LocalApic::send_startup(1, 0x08);
    assert_eq!(w[1].value, 0x0060_0008);
    assert_eq!(LocalApic::timer_initial_count(1_600_000_000, 100), 1_000_000);
    assert_eq!(LocalApic::bus_frequency(0xFFFF_FFFF - 1000), 320_000);
    assert_eq!(LocalApic::calibration_ticks(), 59659);
    assert_eq!(l.setup_timer(100, 1_600_000_000).len(), 3);
    assert_eq!(l.stop_timer().len(), 2);
    assert!(LocalApic::icr_pending(0x1000));
}

#[test]
fn io_apic_routes_and_entries() {
    let w = IoApic::setup_irq(1, 0x21, false);
    assert_eq!(w.register, 0x12);
    assert_eq!(w.low, 0x21);
    assert_eq!(w.high, 0);
    let w = IoApic::setup_irq(2, 0x20, true);
    assert_eq!(w.low, 0x8020);
    let m = IoApic::mask_irq(3, 0x21);
    assert_eq!(m.low, 0x10021);
    let u = IoApic::unmask_irq(3, 0x10021);
    assert_eq!(u.low, 0x21);
    assert_eq!(IoApic::read_redirect(0x21, 0x0100_0000), 0x0100_0000_0000_0021);
    assert_eq!(IoApic::max_entries(0x0017_0011), 24);
    let mut info = AcpiInfo::new();
    info.int_override_count = 1;
    info.int_overrides[0].irq_source = 0;
    info.int_overrides[0].global_system_interrupt = 2;
    let (io, routes) = IoApic::init(&info).unwrap();
    assert_eq!(io.base, 0xFEC0_0000);
    assert_eq!(
        routes,
        vec![
            IrqRoute { irq: 1, vector: 0x21, level_triggered: false },
            IrqRoute { irq: 2, vector: 0x20, level_triggered: false },
        ]
    );
    info.io_apic_address = 0;
    assert!(IoApic::init(&info).is_none());
}

#[test]
fn timers() {
    assert_eq!(Pit::divisor(100), 11931);
    assert_eq!(Pit::divisor(0), 0xFFFF);
    assert_eq!(Pit::divisor(10), 65535);
    assert_eq!(Pit::divisor(2_000_000), 1);
    let mut t = TimerState::new();
    let bytes = Pit::init(&mut t, 100);
    assert_eq!(bytes, [0x36, 0x9B, 0x2E]);
    t.on_timer_tick();
    t.on_timer_tick();
    assert_eq!(t.tick_count(), 2);
    assert_eq!(t.uptime_ms(), 20);
    assert_eq!(t.uptime_sec(), 0);
    assert_eq!(t.uptime_us(0), 20_000);
    assert_eq!(Pit::current_count(0x34, 0x12), 0x1234);
    assert_eq!(Pit::delay_ticks(10), 11931);
    assert_eq!(Hpet::setup_periodic(&t, 100), Err("HPET not available"));
    assert_eq!(Hpet::init(&mut t, 0xFED0_0000, 0), Err("Invalid HPET period"));
    let caps = (10_000_000u64 << 32) | 0x8000;
    assert_eq!(Hpet::init(&mut t, 0xFED0_0000, caps), Ok(3));
    assert_eq!(Hpet::setup_periodic(&t, 100), Ok(1_000_000));
    assert_eq!(Hpet::counter(&t, 77), 77);
    assert_eq!(t.uptime_us(1000), 10);
    let mut t = TimerState::new();
    for _ in 0..100 {
        t.on_timer_tick();
    }
    assert_eq!(t.uptime_us(0), 1_000_000);
    assert_eq!(Pit::disable(), [0x32, 0xFF, 0xFF]);
}

#[test]
fn icr_wait_steps() {
    assert_eq!(LocalApic::icr_wait_step(0, 0), IcrWait::Delivered);
    assert_eq!(LocalApic::icr_wait_step(0, 0x1000), IcrWait::ReadAgain);
    assert_eq!(LocalApic::icr_wait_step(998, 0x1000), IcrWait::ReadAgain);
    assert_eq!(LocalApic::icr_wait_step(999, 0x1000), IcrWait::GiveUp);
    assert_eq!(LocalApic::icr_wait_step(999, 0xFFF), IcrWait::Delivered);
}

#[test]
fn acpi_parser_starts_empty() {
    let p = AcpiParser::new();
    let i = p.info();
    assert_eq!(i.local_apic_address, 0xFEE0_0000);
    assert_eq!(i.io_apic_address, 0xFEC0_0000);
    assert_eq!(i.io_apic_gsi_base, 0);
    assert_eq!(i.hpet_number, 0);
    assert_eq!(i.hpet_min_tick, 0);
    assert_eq!(i.processor_count, 0);
    assert!(i.processors.iter().all(|p| p.processor_id == 0 && p.apic_id == 0 && !p.is_enabled));
    assert!(i.int_overrides.iter().all(|o| o.irq_source == 0 && o.global_system_interrupt == 0));
    assert_eq!(i.int_override_count, 0);
}
