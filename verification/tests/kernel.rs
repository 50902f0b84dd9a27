use deltaos::arch::gdt::{build_gdt, create_code_entry, create_data_entry, create_tss_entry_high, create_tss_entry_low, gdt_limit, Tss};
use deltaos::arch::idt::{Idt, IdtEntry, KERNEL_GATE, USER_GATE};
use deltaos::console::{Console, BLANK, VGA_CELLS};
use deltaos::interrupts::{
    classify_vector, interrupt_actions, page_fault_bits, send_eoi, trailing_eoi, EoiTarget, InterruptKind, Keyboard,
};
use deltaos::shell::{
    bcd_to_binary, execute_command, parse_hex, parse_hex_checked, parse_int, parse_int_checked,
    split_words, CommandKind, EditOutcome, LineEditor,
};
use deltaos::syscall::{dispatch, syscall_return, SyscallAction, SyscallNumber};
use deltaos::KernelError;

#[test]
fn errors_map_to_negative_codes() {
    assert_eq!(isize::from(KernelError::OutOfMemory), -12);
    assert_eq!(isize::from(KernelError::FileNotFound), -2);
    assert_eq!(isize::from(KernelError::AccessDenied), -13);
    assert_eq!(isize::from(KernelError::GeneralFault), -1);
    assert_eq!(syscall_return(Err(KernelError::IoError)), -5);
    assert_eq!(syscall_return(Ok(42)), 42);
}

#[test]
fn syscall_dispatch() {
    assert_eq!(SyscallNumber::from(23u64), SyscallNumber::Getpid);
    assert_eq!(SyscallNumber::from(999u64), SyscallNumber::Read);
    assert!(matches!(dispatch(23, 0, 0, 0), SyscallAction::Finish(Ok(1))));
    assert!(matches!(dispatch(1, 1, 0x1000, 5), SyscallAction::Print { buffer: 0x1000, count: 5 }));
    assert!(matches!(dispatch(1, 7, 0x1000, 5), SyscallAction::Finish(Err(KernelError::IoError))));
    assert!(matches!(dispatch(100, 0x2000, 3, 0), SyscallAction::Print { buffer: 0x2000, count: 3 }));
    assert!(matches!(dispatch(21, 0, 0, 0), SyscallAction::Exit));
    assert!(matches!(dispatch(0, 0, 0, 0), SyscallAction::Finish(Err(KernelError::IoError))));
}

#[test]
fn vectors_and_eoi() {
    assert_eq!(classify_vector(14), InterruptKind::PageFault);
    assert_eq!(classify_vector(32), InterruptKind::Timer);
    assert_eq!(classify_vector(33), InterruptKind::Keyboard);
    assert_eq!(classify_vector(47), InterruptKind::SpuriousPic);
    assert_eq!(classify_vector(128), InterruptKind::Syscall);
    assert_eq!(classify_vector(3), InterruptKind::OtherException);
    assert_eq!(classify_vector(200), InterruptKind::Other);
    assert_eq!(trailing_eoi(40), Some(8));
    assert_eq!(trailing_eoi(33), None);
    assert_eq!(page_fault_bits(0b101), (true, false, true));
    assert_eq!(send_eoi(true, 9), EoiTarget::Apic);
    assert_eq!(send_eoi(false, 9), EoiTarget::Pic { slave: true });
    assert_eq!(send_eoi(false, 1), EoiTarget::Pic { slave: false });
}

#[test]
fn keyboard_translates_and_buffers_in_order() {
    let mut k = Keyboard::new();
    assert!(!k.has_data());
    k.handle_scancode(0x1E); // a
    k.handle_scancode(0x2A); // shift down
    k.handle_scancode(0x1E); // A
    k.handle_scancode(0xAA); // shift up
    k.handle_scancode(0x9E); // a released: nothing
    k.handle_scancode(0x02); // 1
    assert!(k.has_data());
    assert_eq!(k.read_char(), b'a');
    assert_eq!(k.read_char(), b'A');
    assert_eq!(k.read_char(), b'1');
    assert_eq!(k.read_char(), 0);
    k.handle_scancode(0x3A); // caps lock: no character
    assert!(!k.has_data());
}

#[test]
fn keyboard_buffer_holds_255() {
    let mut k = Keyboard::new();
    for _ in 0..300 {
        k.handle_scancode(0x1E);
    }
    let mut n = 0;
    while k.has_data() {
        k.read_char();
        n += 1;
    }
    assert_eq!(n, 255);
}

#[test]
fn command_lines() {
    let c = execute_command("  kill  42 ", false);
    assert_eq!(c.kind, CommandKind::Kill);
    assert_eq!(c.name, "kill");
    assert_eq!(c.args, vec![String::from("42")]);
    assert_eq!(execute_command("\t", false).kind, CommandKind::Empty);
    assert_eq!(execute_command("mem 0x1000", false).kind, CommandKind::Unknown);
    assert_eq!(execute_command("mem 0x1000", true).kind, CommandKind::Mem);
    assert_eq!(execute_command("help", false).kind, CommandKind::Help);
    assert_eq!(execute_command("frobnicate", true).kind, CommandKind::Unknown);
    assert_eq!(split_words(" a  bc d ").len(), 3);
}

#[test]
fn numbers() {
    assert_eq!(parse_hex("0x1F"), 31);
    assert_eq!(parse_hex("ff"), 255);
    assert_eq!(parse_hex("0X10"), 16);
    assert_eq!(parse_hex("0x0Xa"), 10);
    assert_eq!(parse_hex("0xZZ"), 0);
    assert_eq!(parse_int("123"), 123);
    assert_eq!(parse_int("0x20"), 32);
    assert_eq!(parse_int("12a"), 0);
    assert_eq!(parse_int(""), 0);
    assert_eq!(parse_hex_checked("ffffffffffffffffff"), None);
    assert_eq!(parse_int_checked("99999999999999999999999"), None);
    assert_eq!(bcd_to_binary(0x59), 59);
    assert_eq!(bcd_to_binary(0x07), 7);
}

#[test]
fn line_editing() {
    let mut e = LineEditor::new();
    assert!(matches!(e.key(b'l'), EditOutcome::Echo(b'l')));
    assert!(matches!(e.key(b's'), EditOutcome::Echo(b's')));
    assert!(matches!(e.key(b'x'), EditOutcome::Echo(b'x')));
    assert!(matches!(e.key(8), EditOutcome::Erase));
    assert!(matches!(e.key(3), EditOutcome::Ignore));
    match e.key(b'\n') {
        EditOutcome::Submit(s) => assert_eq!(s, "ls"),
        _ => panic!("expected a line"),
    }
    assert!(matches!(e.key(8), EditOutcome::Ignore));
}

#[test]
fn console_prints_wraps_and_scrolls() {
    let mut c = Console::new();
    c.print("hi\n");
    assert_eq!(c.cells()[0], 0x0F00 | b'h' as u16);
    assert_eq!(c.cells()[1], 0x0F00 | b'i' as u16);
    assert_eq!(c.cursor(), (1, 0));
    c.set_color(0x0A, 0x01);
    c.print_char(b'x');
    assert_eq!(c.cells()[80], 0x1A00 | b'x' as u16);
    for _ in 0..30 {
        c.print("\n");
    }
    assert_eq!(c.cursor(), (24, 0));
    assert_eq!(c.cells()[VGA_CELLS - 1], BLANK);
    c.clear();
    assert_eq!(c.cursor(), (0, 0));
    assert!(c.cells().iter().all(|&x| x == BLANK));
}

#[test]
fn descriptor_tables() {
    assert_eq!(create_code_entry(0).access, 0x9A);
    assert_eq!(create_code_entry(3).access, 0xFA);
    assert_eq!(create_data_entry(3).access, 0xF2);
    let lo = create_tss_entry_low(0x1122_3344_5566_7788, 103);
    assert_eq!(lo.limit_low, 103);
    assert_eq!(lo.base_low, 0x7788);
    assert_eq!(lo.base_middle, 0x66);
    assert_eq!(lo.base_high, 0x55);
    let hi = create_tss_entry_high(0x1122_3344_5566_7788);
    assert_eq!(hi.limit_low, 0x3344);
    assert_eq!(hi.base_low, 0x1122);
    let g = build_gdt(0x1000, 103);
    assert_eq!(g[5].access, 0x89);
    assert_eq!(gdt_limit(), 55);
    let mut tss = Tss::new(104);
    tss.set_kernel_stack(0x9000);
    assert_eq!(tss.rsp[0], 0x9000);
    let mut idt = Idt::new();
    let stubs = [0x1000u64; 49];
    idt.populate(&stubs, 0x2000, 0x3000);
    idt.set_isr_handler(300, 0x4000);
    assert_eq!(Idt::limit(), 4095);
    assert_eq!(IdtEntry::default().attributes, 0);
    assert_eq!(KERNEL_GATE, 0x8E);
    assert_eq!(USER_GATE, 0xEF);
}

#[test]
fn idt_gates_point_at_handlers() {
    let mut idt = Idt::new();
    let mut stubs = [0u64; 49];
    for (i, s) in stubs.iter_mut().enumerate() {
        *s = 0x1_0000_0000 + 0x10 * i as u64;
    }
    idt.populate(&stubs, 0xAAAA_BBBB_CCCC, 0x1234);
    let e = idt.entries();
    assert_eq!(e.len(), 256);
    assert_eq!(e[0].offset_low, 0x0000);
    assert_eq!(e[0].offset_high, 1);
    assert_eq!(e[0].selector, 0x08);
    assert_eq!(e[0].attributes, KERNEL_GATE);
    assert_eq!(e[32].offset_low, 0xCCCC);
    assert_eq!(e[32].offset_middle, 0xBBBB);
    assert_eq!(e[32].offset_high, 0xAAAA);
    assert_eq!(e[33].offset_low, 0x10 * 32);
    assert_eq!(e[0x80].attributes, USER_GATE);
    assert_eq!(e[0x80].offset_low, 0x10 * 48);
    assert_eq!(e[0xFF].offset_low, 0x1234);
    assert_eq!(e[100], IdtEntry::default());
}

#[test]
fn interrupt_actions_per_vector() {
    let t = interrupt_actions(32);
    assert!(t.timer_tick && !t.report && t.eoi == Some(0));
    let k = interrupt_actions(33);
    assert!(k.read_keyboard && k.eoi == Some(1));
    let df = interrupt_actions(8);
    assert!(df.report && df.halt && df.eoi.is_none());
    let pf = interrupt_actions(14);
    assert!(pf.report && !pf.halt);
    let sc = interrupt_actions(128);
    assert!(sc.syscall && sc.eoi.is_none() && !sc.report);
    assert_eq!(interrupt_actions(40).eoi, Some(8));
    assert_eq!(interrupt_actions(39).eoi, Some(7));
    assert!(!interrupt_actions(255).report && interrupt_actions(255).eoi.is_none());
    assert!(interrupt_actions(20).report);
}
