pub mod gdt;
pub mod idt;
