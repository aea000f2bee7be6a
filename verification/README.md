# thos

A verified core for a small hybrid operating system and the programs around
it. The library under `src/` is written in Verus: every public function has
a contract, and Verus proves it.

What is in it:

- **Machine**: the memory map and the frame allocator (`mm`), page rights
  (`vmm`), segments and fault stacks (`gdt`, `idt`, `cpu`), processors (`smp`),
  the interrupt controller and the timer (`apic`, `timer`), ACPI tables
  (`acpi`), PCI (`pci`), the disk controller (`ahci`), the USB controller
  (`xhci`), the serial line (`serial`) and the keyboard (`console`).
- **Storage**: partitions (`gpt`), FAT (`fat`), ext2 (`ext2`), the components of
  a path (`paths`), files in memory (`vfs`) and the order of their names
  (`byte_order`), open files and pipes (`file`) and directory streams
  (`dirlist`).
- **Processes**: address spaces (`process`), tasks and descriptors (`task`),
  threads (`sched`), waiting (`wait`), handles (`object`), ELF images (`elf`),
  `fork`, `exec` and `wait4` (`spawn`), process ids and what becomes of an ended
  task (`lifecycle`), and the system calls (`syscall`, `syscall_fs`, `sys`,
  `current`).
- **Win64 programs**: images (`pe`), the loader (`pe_loader`), the pages it makes
  (`pe_pages`), the two service tables (`nt_kernel32`, `nt_ntdll`, `nt_names`,
  `nt`), exceptions (`seh`), asynchronous calls (`apc`) and the registry
  (`registry`).
- **Accounts**: stored credentials (`cred`) and logging in (`login`).
- **Boot picker**: load options, device paths, configuration and menu (`boot`).
- **Language model**: the weight format (`tlm`), the tokenizer (`tokenizer`),
  sampling (`sample`) and the shell around it (`shell`).
- **Desktop**: the task bar (`taskbar`), its clock (`clock`) and the daemon's
  status (`tarnod_client`).
- **Execution guard**: the events of the tracing program (`guard`).

Properties that relate several functions are public proof functions whose names
begin with `law_`.

Functions of other crates are called behind small wrappers whose contracts are
trusted; each says in its doc comment what is claimed of the outside function.

`app/` is ordinary Rust: the programs' `main`, registers and ports, the
firmware, the compositor, the tracing program, and floating point. `tests/` runs
the library.
