//! Verified core of THOS, a small hybrid operating system: the executive's
//! objects and dispatchers, the NT and POSIX personalities, the image loaders,
//! the on-disk formats, and the logic around them.
//!
//! Every function here works on plain values. Hardware registers, page-table
//! installation, firmware calls and the display live outside this crate and
//! hand their values in.
pub mod acpi;
pub mod ahci;
pub mod apc;
pub mod apic;
pub mod bits;
pub mod boot;
pub mod boot_plan;
pub mod bus_devices;
pub mod byte_order;
pub mod bytes;
pub mod clock;
pub mod console;
pub mod cpu;
pub mod cred;
pub mod current;
pub mod device_commands;
pub mod dirlist;
pub mod elf;
pub mod elf_layout;
pub mod exec_start;
pub mod ext2;
pub mod ext2_layout;
pub mod fat;
pub mod fat_layout;
pub mod file;
pub mod firmware_tables;
pub mod framebuffer;
pub mod gdt;
pub mod gpt;
pub mod guard;
pub mod idt;
pub mod lifecycle;
pub mod login;
pub mod memory_plan;
pub mod mm;
pub mod nt;
pub mod nt_frames;
pub mod nt_kernel32;
pub mod nt_lookup;
pub mod nt_names;
pub mod nt_ntdll;
pub mod nt_objects;
pub mod nt_services;
pub mod object;
pub mod path_walk;
pub mod paths;
pub mod pci;
pub mod pe;
pub mod pe_binding;
pub mod pe_layout;
pub mod pe_loader;
pub mod pe_pages;
pub mod pe_process;
pub mod pe_start;
pub mod posix_control;
pub mod posix_copy;
pub mod posix_io;
pub mod posix_numbers;
pub mod process;
pub mod records;
pub mod registry;
pub mod reloc_layout;
pub mod sample;
pub mod scan;
pub mod sched;
pub mod seh;
pub mod serial;
pub mod shell;
pub mod smp;
pub mod spawn;
pub mod start_stack;
pub mod sys;
pub mod syscall;
pub mod syscall_fs;
pub mod tarnod_client;
pub mod task;
pub mod taskbar;
pub mod text;
pub mod timer;
pub mod tlm;
pub mod tokenizer;
pub mod usb_requests;
pub mod vfs;
pub mod vmm;
pub mod wait;
pub mod xhci;
