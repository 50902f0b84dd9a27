# deltaos

The logic of the DeltaOS x86_64 kernel as a Verus library, with the kernel
itself around it.

- `src/` is the verified library. Each subsystem states what it does over a
  mathematical view of its state, and the laws that tie operations together
  are public proof functions:
  - `memory`: the physical page bitmap (`pmm`), four-level page tables
    (`vmm`), and the slab/bump heap (`heap`);
  - `sched`: tasks, signals and the priority round-robin scheduler;
  - `fs`: the virtual file system (`vfs`) and the NTFS volume reader
    (`ntfs`): boot sector, MFT records, attributes, data runs, journal;
  - `module`: loadable modules and the kernel symbol table;
  - `acpi`, `apic`, `timer`: table decoding, the register writes that bring
    the local and I/O APICs up, PIT and HPET programming;
  - `arch`: GDT, TSS and IDT layouts;
  - `interrupts`, `syscall`, `shell`, `console`: vector classification,
    the keyboard ring buffer, system call dispatch, command decoding and
    line editing, the text screen.

  Hardware access never happens in the library: functions that would touch
  ports or registers return the values or writes to perform, and take what
  was read as arguments.
- `app/` is the kernel: boot sequence, interrupt entry points, the shell
  loop, and the port, memory-mapped and physical memory accesses.
- `tests/` exercises the library on concrete values.
