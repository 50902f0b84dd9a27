//! Verified core of a small x86_64 kernel: memory managers, scheduler,
//! virtual file system, NTFS structures, module registry, ACPI parsing,
//! interrupt-controller and timer register logic.
use vstd::prelude::*;

pub mod acpi;
pub mod apic;
pub mod arch;
pub mod bytes;
pub mod console;
pub mod fs;
pub mod interrupts;
pub mod keyed;
pub mod memory;
pub mod module;
pub mod sched;
pub mod shell;
pub mod syscall;
pub mod text;
pub mod timer;

verus! {

pub const PAGE_SIZE: usize = 4096;
pub const PAGE_SIZE_2MB: usize = 0x200000;
pub const PAGE_SIZE_1GB: usize = 0x40000000;
pub const KERNEL_BASE: usize = 0x100000;
pub const HEAP_BASE: usize = 0x800000;
pub const HEAP_SIZE: usize = 0x200000;
pub const PMM_BITMAP_BASE: usize = 0x500000;
pub const PMM_BITMAP_SIZE: usize = 0x200000;
pub const VMM_PAGES_BASE: usize = 0x700000;
pub const VMM_PAGES_SIZE: usize = 0x100000;
pub const TASK_STACKS_BASE: usize = 0xA00000;
/// Start of the user half of the address space (above 4 GiB).
pub const USER_SPACE_START: u64 = 0x1_0000_0000;
pub const VGA_BUFFER: usize = 0x000B8000;
pub const PAGE_ENTRIES: usize = 512;

pub type PhysAddr = usize;
pub type VirtAddr = usize;
pub type PageFrame = usize;
pub type KernelResult<T> = Result<T, KernelError>;

/// Errors reported by every kernel subsystem.
#[derive(Debug, Clone, Copy, PartialEq, Eq, Structural)]
pub enum KernelError {
    OutOfMemory,
    InvalidAddress,
    PageNotMapped,
    PageAlreadyMapped,
    InvalidArgument,
    DeviceNotFound,
    FileSystemNotFound,
    FileNotFound,
    IoError,
    ModuleNotFound,
    AccessDenied,
    GeneralFault,
}


/// The negative error number user space sees for each error.
pub open spec fn errno(e: KernelError) -> int {
    match e {
        KernelError::OutOfMemory => -12,
        KernelError::InvalidAddress => -14,
        KernelError::PageNotMapped => -2,
        KernelError::PageAlreadyMapped => -17,
        KernelError::InvalidArgument => -22,
        KernelError::DeviceNotFound => -19,
        KernelError::FileSystemNotFound => -19,
        KernelError::FileNotFound => -2,
        KernelError::IoError => -5,
        KernelError::ModuleNotFound => -2,
        KernelError::AccessDenied => -13,
        KernelError::GeneralFault => -1,
    }
}

impl vstd::std_specs::convert::FromSpecImpl<KernelError> for isize {
    open spec fn obeys_from_spec() -> bool {
        true
    }

    open spec fn from_spec(e: KernelError) -> isize {
        errno(e) as isize
    }
}

impl From<KernelError> for isize {
    fn from(e: KernelError) -> (r: isize) {
        match e {
            KernelError::OutOfMemory => -12,
            KernelError::InvalidAddress => -14,
            KernelError::PageNotMapped => -2,
            KernelError::PageAlreadyMapped => -17,
            KernelError::InvalidArgument => -22,
            KernelError::DeviceNotFound => -19,
            KernelError::FileSystemNotFound => -19,
            KernelError::FileNotFound => -2,
            KernelError::IoError => -5,
            KernelError::ModuleNotFound => -2,
            KernelError::AccessDenied => -13,
            KernelError::GeneralFault => -1,
        }
    }
}

} // verus!
