//! Interrupt handling decisions: what each vector means, which controller
//! gets the end-of-interrupt, and the keyboard: scancode translation with
//! shift and caps lock, and the ring buffer of typed characters.
use vstd::prelude::*;

verus! {

/// Registers saved by the interrupt entry stubs.
#[derive(Debug, Clone, Copy)]
pub struct InterruptContext {
    pub r15: u64,
    pub r14: u64,
    pub r13: u64,
    pub r12: u64,
    pub r11: u64,
    pub r10: u64,
    pub r9: u64,
    pub r8: u64,
    pub rbp: u64,
    pub rdi: u64,
    pub rsi: u64,
    pub rdx: u64,
    pub rcx: u64,
    pub rbx: u64,
    pub rax: u64,
    pub vector: u64,
    pub error_code: u64,
    pub rip: u64,
    pub cs: u64,
    pub rflags: u64,
    pub rsp: u64,
    pub ss: u64,
}

/// Bytes the keyboard ring buffer has; one slot stays empty.
pub const KEYBOARD_BUFFER_SIZE: usize = 256;

/// What an interrupt vector is.
#[derive(Debug, Clone, Copy, PartialEq, Eq, Structural)]
pub enum InterruptKind {
    DivideError,
    InvalidOpcode,
    DoubleFault,
    GeneralProtection,
    PageFault,
    Timer,
    Keyboard,
    SpuriousPic,
    Syscall,
    SpuriousApic,
    OtherException,
    Other,
}

/// The kind of each vector: the named exceptions, IRQ 0 and 1 at 32 and
/// 33, the PIC's spurious IRQs 7 and 15, the system call at 128, the APIC's
/// spurious vector 255; other vectors below 32 are exceptions.
pub open spec fn kind_of(vector: u64) -> InterruptKind {
    if vector == 0 {
        InterruptKind::DivideError
    } else if vector == 6 {
        InterruptKind::InvalidOpcode
    } else if vector == 8 {
        InterruptKind::DoubleFault
    } else if vector == 13 {
        InterruptKind::GeneralProtection
    } else if vector == 14 {
        InterruptKind::PageFault
    } else if vector == 32 {
        InterruptKind::Timer
    } else if vector == 33 {
        InterruptKind::Keyboard
    } else if vector == 39 || vector == 47 {
        InterruptKind::SpuriousPic
    } else if vector == 128 {
        InterruptKind::Syscall
    } else if vector == 255 {
        InterruptKind::SpuriousApic
    } else if vector < 32 {
        InterruptKind::OtherException
    } else {
        InterruptKind::Other
    }
}

pub fn classify_vector(vector: u64) -> (k: InterruptKind)
    ensures
        k == kind_of(vector),
{
    match vector {
        0 => InterruptKind::DivideError,
        6 => InterruptKind::InvalidOpcode,
        8 => InterruptKind::DoubleFault,
        13 => InterruptKind::GeneralProtection,
        14 => InterruptKind::PageFault,
        32 => InterruptKind::Timer,
        33 => InterruptKind::Keyboard,
        39 | 47 => InterruptKind::SpuriousPic,
        128 => InterruptKind::Syscall,
        255 => InterruptKind::SpuriousApic,
        _ => if vector < 32 {
            InterruptKind::OtherException
        } else {
            InterruptKind::Other
        },
    }
}

/// What the handler does for one interrupt.
#[derive(Debug, Clone, Copy, PartialEq, Eq, Structural)]
pub struct InterruptActions {
    /// Print the exception.
    pub report: bool,
    /// Stop the processor after reporting.
    pub halt: bool,
    /// Count a timer tick and let the scheduler tick.
    pub timer_tick: bool,
    /// Read a scancode from the keyboard controller.
    pub read_keyboard: bool,
    /// Dispatch a system call from the saved registers.
    pub syscall: bool,
    /// The IRQ whose end-of-interrupt is sent, if any.
    pub eoi: Option<u8>,
}

/// The handler's actions for `vector`: exceptions are reported (a double
/// fault halts); the timer ticks and acknowledges IRQ 0; the keyboard
/// reads its scancode and acknowledges IRQ 1; the system call is
/// dispatched; IRQs 2 to 15 are acknowledged; spurious vectors do nothing.
pub open spec fn actions_of(vector: u64) -> InterruptActions {
    let k = kind_of(vector);
    InterruptActions {
        report: k == InterruptKind::DivideError || k == InterruptKind::InvalidOpcode || k
            == InterruptKind::DoubleFault || k == InterruptKind::GeneralProtection || k
            == InterruptKind::PageFault || k == InterruptKind::OtherException,
        halt: k == InterruptKind::DoubleFault,
        timer_tick: k == InterruptKind::Timer,
        read_keyboard: k == InterruptKind::Keyboard,
        syscall: k == InterruptKind::Syscall,
        eoi: if k == InterruptKind::Timer {
            Some(0u8)
        } else if k == InterruptKind::Keyboard {
            Some(1u8)
        } else if 34 <= vector < 48 {
            Some((vector - 32) as u8)
        } else {
            None::<u8>
        },
    }
}

pub fn interrupt_actions(vector: u64) -> (a: InterruptActions)
    ensures
        a == actions_of(vector),
{
    let k = classify_vector(vector);
    let report = match k {
        InterruptKind::DivideError | InterruptKind::InvalidOpcode | InterruptKind::DoubleFault
        | InterruptKind::GeneralProtection | InterruptKind::PageFault | InterruptKind::OtherException => true,
        _ => false,
    };
    let eoi = match k {
        InterruptKind::Timer => Some(0u8),
        InterruptKind::Keyboard => Some(1u8),
        _ => trailing_eoi(vector),
    };
    InterruptActions {
        report,
        halt: k == InterruptKind::DoubleFault,
        timer_tick: k == InterruptKind::Timer,
        read_keyboard: k == InterruptKind::Keyboard,
        syscall: k == InterruptKind::Syscall,
        eoi,
    }
}

/// The IRQ that gets its end-of-interrupt after the handler: IRQs 2 to 15
/// (IRQ 0 and 1 get theirs from their own handlers).
pub fn trailing_eoi(vector: u64) -> (r: Option<u8>)
    ensures
        r == if 34 <= vector < 48 {
            Some((vector - 32) as u8)
        } else {
            None::<u8>
        },
{
    if vector >= 34 && vector < 48 {
        Some((vector - 32) as u8)
    } else {
        None
    }
}

/// The present, write and user bits of a page fault's error code.
pub fn page_fault_bits(error_code: u64) -> (r: (bool, bool, bool))
    ensures
        r == (error_code % 2 == 1, (error_code / 2) % 2 == 1, (error_code / 4) % 2 == 1),
{
    assert(((error_code & 1) != 0) == (error_code % 2 == 1) && ((error_code & 2) != 0) == ((error_code / 2)
        % 2 == 1) && ((error_code & 4) != 0) == ((error_code / 4) % 2 == 1)) by (bit_vector);
    ((error_code & 1) != 0, (error_code & 2) != 0, (error_code & 4) != 0)
}

/// Who gets an end-of-interrupt.
#[derive(Debug, Clone, Copy, PartialEq, Eq, Structural)]
pub enum EoiTarget {
    /// The local APIC.
    Apic,
    /// The legacy PICs: the slave too (port 0xA0) when `slave`, then the
    /// master (port 0x20).
    Pic { slave: bool },
}

/// The end-of-interrupt for `irq`: the local APIC when it is in use, else
/// the PICs, the slave as well for IRQs 8 and up.
pub fn send_eoi(using_apic: bool, irq: u8) -> (t: EoiTarget)
    ensures
        t == if using_apic {
            EoiTarget::Apic
        } else {
            EoiTarget::Pic { slave: irq >= 8 }
        },
{
    if using_apic {
        EoiTarget::Apic
    } else {
        EoiTarget::Pic { slave: irq >= 8 }
    }
}

/// The character of scancode `key` (below 128) without shift; 0 for keys
/// without one.
pub open spec fn plain_char(key: int) -> u8 {
    scancode_table(false)[key]
}

/// The character of scancode `key` with shift.
pub open spec fn shifted_char(key: int) -> u8 {
    scancode_table(true)[key]
}

/// The US keyboard layout for scancode set 1, unshifted or shifted.
pub open spec fn scancode_table(shift: bool) -> Seq<u8> {
    if !shift {
        seq![
            0u8, 27, 0x31, 0x32, 0x33, 0x34, 0x35, 0x36, 0x37, 0x38, 0x39, 0x30, 0x2D, 0x3D, 8,
            0x09, 0x71, 0x77, 0x65, 0x72, 0x74, 0x79, 0x75, 0x69, 0x6F, 0x70, 0x5B, 0x5D, 0x0A,
            0, 0x61, 0x73, 0x64, 0x66, 0x67, 0x68, 0x6A, 0x6B, 0x6C, 0x3B, 0x27, 0x60,
            0, 0x5C, 0x7A, 0x78, 0x63, 0x76, 0x62, 0x6E, 0x6D, 0x2C, 0x2E, 0x2F, 0,
            0x2A, 0, 0x20,
            0, 0, 0, 0, 0, 0, 0, 0, 0, 0,
            0, 0, 0, 0, 0, 0, 0, 0, 0, 0,
            0, 0, 0, 0, 0x2D, 0, 0, 0, 0x2B, 0,
            0, 0, 0, 0, 0, 0, 0, 0, 0, 0,
            0, 0, 0, 0, 0, 0, 0, 0, 0, 0,
            0, 0, 0, 0, 0, 0, 0, 0, 0, 0,
            0, 0, 0, 0, 0, 0, 0, 0, 0, 0
        ]
    } else {
        seq![
            0u8, 27, 0x21, 0x40, 0x23, 0x24, 0x25, 0x5E, 0x26, 0x2A, 0x28, 0x29, 0x5F, 0x2B, 8,
            0x09, 0x51, 0x57, 0x45, 0x52, 0x54, 0x59, 0x55, 0x49, 0x4F, 0x50, 0x7B, 0x7D, 0x0A,
            0, 0x41, 0x53, 0x44, 0x46, 0x47, 0x48, 0x4A, 0x4B, 0x4C, 0x3A, 0x22, 0x7E,
            0, 0x7C, 0x5A, 0x58, 0x43, 0x56, 0x42, 0x4E, 0x4D, 0x3C, 0x3E, 0x3F, 0,
            0x2A, 0, 0x20,
            0, 0, 0, 0, 0, 0, 0, 0, 0, 0,
            0, 0, 0, 0, 0, 0, 0, 0, 0, 0,
            0, 0, 0, 0, 0x2D, 0, 0, 0, 0x2B, 0,
            0, 0, 0, 0, 0, 0, 0, 0, 0, 0,
            0, 0, 0, 0, 0, 0, 0, 0, 0, 0,
            0, 0, 0, 0, 0, 0, 0, 0, 0, 0,
            0, 0, 0, 0, 0, 0, 0, 0, 0, 0
        ]
    }
}

fn scancode_tables() -> (r: ([u8; 128], [u8; 128]))
    ensures
        r.0@ == scancode_table(false),
        r.1@ == scancode_table(true),
{
    let plain: [u8; 128] = [
        0u8, 27, 0x31, 0x32, 0x33, 0x34, 0x35, 0x36, 0x37, 0x38, 0x39, 0x30, 0x2D, 0x3D, 8,
        0x09, 0x71, 0x77, 0x65, 0x72, 0x74, 0x79, 0x75, 0x69, 0x6F, 0x70, 0x5B, 0x5D, 0x0A,
        0, 0x61, 0x73, 0x64, 0x66, 0x67, 0x68, 0x6A, 0x6B, 0x6C, 0x3B, 0x27, 0x60,
        0, 0x5C, 0x7A, 0x78, 0x63, 0x76, 0x62, 0x6E, 0x6D, 0x2C, 0x2E, 0x2F, 0,
        0x2A, 0, 0x20,
        0, 0, 0, 0, 0, 0, 0, 0, 0, 0,
        0, 0, 0, 0, 0, 0, 0, 0, 0, 0,
        0, 0, 0, 0, 0x2D, 0, 0, 0, 0x2B, 0,
        0, 0, 0, 0, 0, 0, 0, 0, 0, 0,
        0, 0, 0, 0, 0, 0, 0, 0, 0, 0,
        0, 0, 0, 0, 0, 0, 0, 0, 0, 0,
        0, 0, 0, 0, 0, 0, 0, 0, 0, 0,
    ];
    let shifted: [u8; 128] = [
        0u8, 27, 0x21, 0x40, 0x23, 0x24, 0x25, 0x5E, 0x26, 0x2A, 0x28, 0x29, 0x5F, 0x2B, 8,
        0x09, 0x51, 0x57, 0x45, 0x52, 0x54, 0x59, 0x55, 0x49, 0x4F, 0x50, 0x7B, 0x7D, 0x0A,
        0, 0x41, 0x53, 0x44, 0x46, 0x47, 0x48, 0x4A, 0x4B, 0x4C, 0x3A, 0x22, 0x7E,
        0, 0x7C, 0x5A, 0x58, 0x43, 0x56, 0x42, 0x4E, 0x4D, 0x3C, 0x3E, 0x3F, 0,
        0x2A, 0, 0x20,
        0, 0, 0, 0, 0, 0, 0, 0, 0, 0,
        0, 0, 0, 0, 0, 0, 0, 0, 0, 0,
        0, 0, 0, 0, 0x2D, 0, 0, 0, 0x2B, 0,
        0, 0, 0, 0, 0, 0, 0, 0, 0, 0,
        0, 0, 0, 0, 0, 0, 0, 0, 0, 0,
        0, 0, 0, 0, 0, 0, 0, 0, 0, 0,
        0, 0, 0, 0, 0, 0, 0, 0, 0, 0,
    ];
    assert(plain@ =~= scancode_table(false));
    assert(shifted@ =~= scancode_table(true));
    (plain, shifted)
}

/// The keyboard: modifier state and the ring buffer of typed characters.
pub struct Keyboard {
    buffer: [u8; 256],
    head: usize,
    tail: usize,
    shift_pressed: bool,
    caps_lock: bool,
}

/// The keyboard as plain values: the characters waiting, oldest first.
pub struct KeyboardView {
    pub pending: Seq<u8>,
    pub shift_pressed: bool,
    pub caps_lock: bool,
}

impl Keyboard {
    pub closed spec fn view(&self) -> KeyboardView {
        KeyboardView {
            pending: Seq::new(
                ((self.head + KEYBOARD_BUFFER_SIZE - self.tail) % KEYBOARD_BUFFER_SIZE as int) as nat,
                |i: int| self.buffer@[(self.tail + i) % KEYBOARD_BUFFER_SIZE as int],
            ),
            shift_pressed: self.shift_pressed,
            caps_lock: self.caps_lock,
        }
    }

    pub closed spec fn wf(&self) -> bool {
        self.head < KEYBOARD_BUFFER_SIZE && self.tail < KEYBOARD_BUFFER_SIZE
    }

    /// No characters waiting, no modifiers.
    pub fn new() -> (k: Self)
        ensures
            k.wf(),
            k.view().pending.len() == 0,
            !k.view().shift_pressed,
            !k.view().caps_lock,
    {
        Keyboard { buffer: [0; 256], head: 0, tail: 0, shift_pressed: false, caps_lock: false }
    }

    /// Whether a character is waiting.
    pub fn has_data(&self) -> (r: bool)
        requires
            self.wf(),
        ensures
            r == (self.view().pending.len() > 0),
    {
        self.head != self.tail
    }

    /// The oldest waiting character, taken off the buffer; 0 when none is.
    pub fn read_char(&mut self) -> (c: u8)
        requires
            old(self).wf(),
        ensures
            final(self).wf(),
            old(self).view().pending.len() == 0 ==> c == 0 && final(self).view() == old(self).view(),
            old(self).view().pending.len() > 0 ==> c == old(self).view().pending[0]
                && final(self).view() == (KeyboardView {
                pending: old(self).view().pending.drop_first(),
                ..old(self).view()
            }),
    {
        if self.head == self.tail {
            return 0;
        }
        let ghost before = self.view().pending;
        let ch = self.buffer[self.tail];
        self.tail = (self.tail + 1) % KEYBOARD_BUFFER_SIZE;
        assert(self.view().pending =~= before.drop_first());
        ch
    }

    /// Appends `ch` unless the buffer is full (255 characters waiting).
    fn push(&mut self, ch: u8)
        requires
            old(self).wf(),
        ensures
            final(self).wf(),
            final(self).shift_pressed == old(self).shift_pressed,
            final(self).caps_lock == old(self).caps_lock,
            final(self).view().pending == if old(self).view().pending.len() < KEYBOARD_BUFFER_SIZE - 1 {
                old(self).view().pending.push(ch)
            } else {
                old(self).view().pending
            },
    {
        let ghost before = self.view().pending;
        let next_head = (self.head + 1) % KEYBOARD_BUFFER_SIZE;
        if next_head != self.tail {
            self.buffer.set(self.head, ch);
            self.head = next_head;
            assert(self.view().pending =~= before.push(ch));
        }
    }

    /// One scancode: shift presses and releases set the shift state, a caps
    /// lock press toggles caps lock; any other key press below 128 with a
    /// character in the layout (shifted while shift is held) is buffered.
    pub fn handle_scancode(&mut self, scancode: u8)
        requires
            old(self).wf(),
        ensures
            final(self).wf(),
            ({
                let released = scancode >= 0x80;
                let key = scancode % 0x80;
                let o = old(self).view();
                if key == 0x2A || key == 0x36 {
                    final(self).view() == KeyboardView { shift_pressed: !released, ..o }
                } else if key == 0x3A {
                    final(self).view() == KeyboardView { caps_lock: o.caps_lock != !released, ..o }
                } else if released {
                    final(self).view() == o
                } else {
                    let ch = if o.shift_pressed {
                        shifted_char(key as int)
                    } else {
                        plain_char(key as int)
                    };
                    &&& final(self).view().shift_pressed == o.shift_pressed
                    &&& final(self).view().caps_lock == o.caps_lock
                    &&& final(self).view().pending == if ch != 0 && o.pending.len()
                        < KEYBOARD_BUFFER_SIZE - 1 {
                        o.pending.push(ch)
                    } else {
                        o.pending
                    }
                }
            }),
    {
        assert(((scancode & 0x80) != 0) == (scancode >= 0x80) && scancode & 0x7F == scancode % 0x80)
            by (bit_vector);
        let released = (scancode & 0x80) != 0;
        let key = scancode & 0x7F;
        if key == 0x2A || key == 0x36 {
            self.shift_pressed = !released;
            return;
        }
        if key == 0x3A {
            if !released {
                self.caps_lock = !self.caps_lock;
            }
            return;
        }
        if released {
            return;
        }
        let (plain, shifted) = scancode_tables();
        let ch = if self.shift_pressed {
            shifted[key as usize]
        } else {
            plain[key as usize]
        };
        if ch != 0 {
            self.push(ch);
        }
    }
}


/// Characters come out in the order they were typed: a character typed
/// while others wait is read after them.
pub proof fn law_keyboard_fifo(pending: Seq<u8>, ch: u8)
    requires
        pending.len() > 0,
    ensures
        pending.push(ch)[0] == pending[0],
        pending.push(ch).drop_first() == pending.drop_first().push(ch),
{
    assert(pending.push(ch).drop_first() =~= pending.drop_first().push(ch));
}

} // verus!
