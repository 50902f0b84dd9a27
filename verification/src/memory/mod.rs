pub mod pmm;
pub mod vmm;
pub mod heap;
