use thos::apc::{write_context, ApcEntry, Regs, CONTEXT_FULL, PE_KIUSERAPC_ADDR};
use thos::mm::{init, Entry, FrameAllocator};
use thos::nt::{
    NT_BASE, NT_CLOSEHANDLE, NT_CREATEFILEA, NT_EXPORTS, NT_GETLASTERROR, NT_GETMODULEHANDLEA,
    NT_GETPROCADDRESS, NT_GETPROCESSHEAP, NT_GETSTDHANDLE, NT_HEAPALLOC, NT_LDRGETPROCEDUREADDRESS,
    NT_NTCONTINUE, NT_NTCREATEEVENT, NT_NTCREATEKEY, NT_NTDELETEKEY, NT_NTDLL_FLAG,
    NT_NTOPENKEY, NT_NTQUERYVALUEKEY, NT_NTQUEUEAPCTHREAD, NT_NTSETEVENT, NT_NTSETVALUEKEY,
    NT_NTTERMINATEPROCESS, NT_NTWAITFORSINGLEOBJECT, NT_NTWRITEFILE, NT_RTLADDVECTOREDEXCEPTIONHANDLER,
    NT_SETLASTERROR, NT_WRITEFILE,
};
use thos::nt_names::win_path_to_thos;
use thos::nt_ntdll::{
    dispatch, poll_event, take_and_stage, STATUS_INVALID_HANDLE, STATUS_INVALID_PARAMETER,
    STATUS_OBJECT_NAME_NOT_FOUND, STATUS_PROCEDURE_NOT_FOUND, STATUS_SUCCESS, STATUS_TIMEOUT,
};
use thos::pe::{apply_relocs, normalize_dll_name, parse_header, peek_size_of_image, stage_image};
use thos::pe_loader::CrtTable;
use thos::pe_pages::{
    build_bootstrap, build_seh, build_synth, build_thread_start, PE_KERNEL32_ADDR, PE_PEB_ADDR,
    PE_PROCESS_HEAP, PE_TEB_ADDR, SYNTH_STUBS_OFF,
};
use thos::process::Process;
use thos::seh::{
    fault_name, thos_fault_dispatch, ExcFrame, FaultAction, PE_KIUSER_ADDR,
    STATUS_ACCESS_VIOLATION,
};
use thos::spawn::spawn_pe;
use thos::sys::{Caller, Outcome, Sys, UserFrame};
use thos::syscall::{thos_syscall_dispatch, SYS_WRITE};
use thos::syscall_fs::Progress;
use thos::task::Task;
use thos::text::{chars_of, string_of};

const BASE: u64 = 0x1_4000_0000;

const CRT: [&str; 14] = [
    "malloc", "free", "exit", "puts", "printf", "memcpy", "memset", "strlen", "strcmp", "abort",
    "__getmainargs", "_cexit", "_initterm", "_iob",
];

fn frames(n: u64) -> FrameAllocator {
    let mut fa = FrameAllocator::new();
    init(&mut fa, &[Entry { base: 0x10_0000, length: n * 4096, usable: true }]);
    fa
}

fn put(b: &mut [u8], at: usize, v: &[u8]) {
    b[at..at + v.len()].copy_from_slice(v);
}

/// A program that imports `WriteFile`, with one relocation at RVA 0x1700.
fn program(imported: &str, relocatable: bool) -> Vec<u8> {
    let mut b = vec![0u8; 0x400 + 0x1000];
    put(&mut b, 0, b"MZ");
    put(&mut b, 0x3C, &0x80u32.to_le_bytes());
    put(&mut b, 0x80, b"PE\0\0");
    put(&mut b, 0x84, &0x8664u16.to_le_bytes());
    put(&mut b, 0x86, &1u16.to_le_bytes());
    put(&mut b, 0x94, &240u16.to_le_bytes());
    let opt = 0x98;
    put(&mut b, opt, &0x20Bu16.to_le_bytes());
    put(&mut b, opt + 16, &0x1010u32.to_le_bytes());
    put(&mut b, opt + 24, &BASE.to_le_bytes());
    put(&mut b, opt + 32, &0x1000u32.to_le_bytes());
    put(&mut b, opt + 36, &0x200u32.to_le_bytes());
    put(&mut b, opt + 56, &0x2000u32.to_le_bytes());
    put(&mut b, opt + 60, &0x400u32.to_le_bytes());
    if relocatable {
        put(&mut b, opt + 70, &0x40u16.to_le_bytes());
    }
    put(&mut b, opt + 108, &16u32.to_le_bytes());
    put(&mut b, opt + 112 + 8, &0x1800u32.to_le_bytes());
    put(&mut b, opt + 112 + 12, &40u32.to_le_bytes());
    put(&mut b, opt + 112 + 40, &0x1A00u32.to_le_bytes());
    put(&mut b, opt + 112 + 44, &12u32.to_le_bytes());
    let sec = opt + 240;
    put(&mut b, sec, b".text\0\0\0");
    put(&mut b, sec + 8, &0x1000u32.to_le_bytes());
    put(&mut b, sec + 12, &0x1000u32.to_le_bytes());
    put(&mut b, sec + 16, &0x1000u32.to_le_bytes());
    put(&mut b, sec + 20, &0x400u32.to_le_bytes());
    put(&mut b, sec + 36, &0x6000_0020u32.to_le_bytes());
    // RVA 0x1000 is at file offset 0x400.
    let at = |rva: usize| rva - 0x1000 + 0x400;
    put(&mut b, at(0x1700), &(BASE + 0x1234).to_le_bytes());
    put(&mut b, at(0x1800), &0x1900u32.to_le_bytes());
    put(&mut b, at(0x1800) + 12, &0x1880u32.to_le_bytes());
    put(&mut b, at(0x1800) + 16, &0x1940u32.to_le_bytes());
    put(&mut b, at(0x1880), b"KERNEL32.dll\0");
    put(&mut b, at(0x1900), &0x18A0u64.to_le_bytes());
    put(&mut b, at(0x1940), &0x18A0u64.to_le_bytes());
    put(&mut b, at(0x18A2), imported.as_bytes());
    put(&mut b, at(0x1A00), &0x1000u32.to_le_bytes());
    put(&mut b, at(0x1A04), &12u32.to_le_bytes());
    put(&mut b, at(0x1A08), &(0xA000u16 | 0x700).to_le_bytes());
    b
}

fn crt() -> CrtTable<'static> {
    CrtTable { exports: &CRT, flag: 0x4000, data: &[13] }
}

fn started() -> (Sys, Task, Caller) {
    let mut s = Sys::new(frames(256), Vec::new(), 1);
    let p = match spawn_pe(&mut s, &program("WriteFile", false), &crt(), 27) {
        Ok(p) => p,
        Err(e) => panic!("{}", e),
    };
    let t = s.tasks.pop().unwrap();
    let frame = UserFrame {
        r15: 0, r14: 0, r13: 0, r12: 0, rbp: 0, rbx: 0, r11: 0, r10: 0, r9: 0, r8: 0, rax: 0,
        rdx: 0, rsi: 0, rdi: 0, rip: p.entry, rflags: 0x202, rsp: p.rsp - 0x800, cs: 0x2B, ss: 0x23,
    };
    let c = Caller { frame, tid: 5, fsbase: 0, gsbase: p.teb, cs: 0x2B, ss: 0x23 };
    (s, t, c)
}

fn call(c: &mut Caller, t: &mut Task, s: &mut Sys, sel: u16, a: [u64; 4]) -> Outcome {
    c.frame.r10 = a[0];
    c.frame.rdx = a[1];
    c.frame.r8 = a[2];
    c.frame.r9 = a[3];
    dispatch(sel, 0, c, t, s)
}

fn value(o: Outcome) -> i64 {
    match o {
        Outcome::Return(v) => v,
        _ => panic!("no plain return"),
    }
}

/// A `UNICODE_STRING` at `at`, its text right behind it.
fn wide(t: &mut Task, at: u64, s: &str) {
    let b: Vec<u8> = s.bytes().flat_map(|c| [c, 0]).collect();
    assert!(t.store_bytes(at, &(b.len() as u16).to_le_bytes()));
    assert!(t.store64(at, 8, at + 16));
    assert!(t.store_bytes(at + 16, &b));
}

#[test]
fn headers_are_read() {
    let f = program("WriteFile", true);
    let h = parse_header(&f).ok().unwrap();
    assert_eq!((h.num_sections, h.entry_rva, h.image_base), (1, 0x1010, BASE));
    assert_eq!((h.size_of_image, h.import, h.reloc), (0x2000, (0x1800, 40), (0x1A00, 12)));
    assert_eq!(peek_size_of_image(&f), Ok(0x2000));
    let broken = |at: usize, v: u8| {
        let mut b = program("x", true);
        b[at] = v;
        parse_header(&b).err()
    };
    assert_eq!(broken(0, 0), Some("PE: not an MZ image"));
    assert_eq!(broken(0x80, 0), Some("PE: no PE signature"));
    assert_eq!(broken(0x84, 0x4C), Some("PE: not x86-64 (Machine != 0x8664)"));
    assert_eq!(broken(0x86, 0), Some("PE: absurd NumberOfSections"));
    assert_eq!(broken(0x94, 4), Some("PE: optional header too small"));
    assert_eq!(broken(0x98, 0), Some("PE: not PE32+ (Optional Magic != 0x20B)"));
    assert_eq!(broken(0x98 + 24, 1), Some("PE: bad ImageBase"));
    assert_eq!(broken(0x98 + 33, 0), Some("PE: bad SectionAlignment"));
    assert_eq!(broken(0x98 + 18, 1), Some("PE: entry point outside the image"));
}

#[test]
fn staged_images_are_relocated() {
    let s = stage_image(&program("WriteFile", true), Some(0x7FF0_0080_0000)).ok().unwrap();
    assert_eq!(s.load_base, 0x7FF0_0080_0000);
    assert_eq!(s.entry, 0x7FF0_0080_1010);
    assert_eq!(s.img[0x1700..0x1708], (0x7FF0_0080_1234u64).to_le_bytes());
    let s = stage_image(&program("WriteFile", false), None).ok().unwrap();
    assert_eq!(s.load_base, BASE);
    assert_eq!(s.img[0x1700..0x1708], (BASE + 0x1234).to_le_bytes());
}

#[test]
fn relocations_outside_are_refused() {
    let mut img = vec![0u8; 0x100];
    put(&mut img, 0, &0x1000u32.to_le_bytes());
    put(&mut img, 4, &10u32.to_le_bytes());
    put(&mut img, 8, &0xA000u16.to_le_bytes());
    assert!(apply_relocs(&mut img, 0, 10, 1).is_err());
    put(&mut img, 0, &0u32.to_le_bytes());
    put(&mut img, 8, &0xA080u16.to_le_bytes());
    assert!(apply_relocs(&mut img, 0, 10, 5).is_ok());
    assert_eq!(img[0x80], 5);
}

#[test]
fn library_names_are_normalized() {
    assert_eq!(normalize_dll_name("KERNEL32"), "kernel32.dll");
    assert_eq!(normalize_dll_name("Foo.DLL"), "foo.dll");
    assert_eq!(string_of(&win_path_to_thos(&chars_of("C:\\Dir\\a.txt"))), "/Dir/a.txt");
    assert_eq!(string_of(&win_path_to_thos(&chars_of("\u{e9}:\\x"))), "/\u{e9}:/x");
}

#[test]
fn imports_lead_to_the_trampolines() {
    let (_, t, c) = started();
    let i = NT_EXPORTS.iter().position(|n| *n == "WriteFile").unwrap() as u64;
    let want = PE_KERNEL32_ADDR + SYNTH_STUBS_OFF + 16 * i;
    assert_eq!(t.load64(BASE + 0x1940, 0), Some(want));
    // mov eax, imm32; mov r10, rcx
    let code = t.load_bytes(want, 16).unwrap();
    assert_eq!(code[0], 0xB8);
    assert_eq!(code[1..5], ((NT_BASE + i) as u32).to_le_bytes());
    assert_eq!(code[5..8], [0x49, 0x89, 0xCA]);
    assert_eq!(c.gsbase, PE_TEB_ADDR);
    assert_eq!(t.load64(PE_TEB_ADDR, 0x60), Some(PE_PEB_ADDR));
    assert_eq!(t.load64(PE_PEB_ADDR, 0x10), Some(BASE));
}

#[test]
fn unknown_imports_are_refused() {
    let mut s = Sys::new(frames(256), Vec::new(), 1);
    assert!(spawn_pe(&mut s, &program("NoSuchThing", false), &crt(), 27).is_err());
    let mut s = Sys::new(frames(2), Vec::new(), 1);
    assert!(spawn_pe(&mut s, &program("WriteFile", false), &crt(), 27).is_err());
}

#[test]
fn synthetic_modules_export_by_name() {
    let p = build_synth(PE_KERNEL32_ADDR, "kernel32.dll", &["A", "B"], 0, &[]).ok().unwrap();
    assert_eq!(p.len(), 4096);
    assert_eq!(&p[..2], b"MZ");
    assert_eq!(build_seh().len(), 4096);
    assert_eq!(build_thread_start(27).len(), 4096);
    assert!(build_bootstrap(&[(1, 2)], 0, 0x1000).is_ok());
    assert!(build_bootstrap(&[(1, 2); 200], 0, 0x1000).is_err());
}

#[test]
fn win32_calls_answer() {
    let (mut s, mut t, mut c) = started();
    let m = value(call(&mut c, &mut t, &mut s, NT_HEAPALLOC, [0, 0, 100, 0])) as u64;
    assert_eq!(t.load8(m), Some(0));
    assert_eq!(value(call(&mut c, &mut t, &mut s, NT_GETSTDHANDLE, [-11i32 as u32 as u64, 0, 0, 0])), 1);
    assert_eq!(value(call(&mut c, &mut t, &mut s, NT_GETPROCESSHEAP, [0; 4])), PE_PROCESS_HEAP as i64);
    assert!(t.store_bytes(m, b"hello"));
    s.out.clear();
    assert_eq!(value(call(&mut c, &mut t, &mut s, NT_WRITEFILE, [1, m, 5, m + 16])), 1);
    assert_eq!(s.out, b"hello");
    assert_eq!(t.load32(m, 16), Some(5));
    call(&mut c, &mut t, &mut s, NT_SETLASTERROR, [77, 0, 0, 0]);
    assert_eq!(value(call(&mut c, &mut t, &mut s, NT_GETLASTERROR, [0; 4])), 77);
    assert_eq!(value(call(&mut c, &mut t, &mut s, NT_CLOSEHANDLE, [50, 0, 0, 0])), 0);
    assert_eq!(value(call(&mut c, &mut t, &mut s, NT_GETLASTERROR, [0; 4])), 6);
    assert!(t.store_bytes(m, b"C:\\x\0"));
    let rsp = c.frame.rsp;
    assert!(t.store64(rsp, 0x28, 1));
    assert_eq!(value(call(&mut c, &mut t, &mut s, NT_CREATEFILEA, [m, 0, 0, 0])), -1);
    assert_eq!(value(call(&mut c, &mut t, &mut s, NT_GETLASTERROR, [0; 4])), 2);
}

#[test]
fn modules_and_procedures_are_found() {
    let (mut s, mut t, mut c) = started();
    let m = value(call(&mut c, &mut t, &mut s, NT_HEAPALLOC, [0, 0, 100, 0])) as u64;
    assert!(t.store_bytes(m, b"Kernel32\0"));
    let k = value(call(&mut c, &mut t, &mut s, NT_GETMODULEHANDLEA, [m, 0, 0, 0])) as u64;
    assert_eq!(k, PE_KERNEL32_ADDR);
    assert_eq!(value(call(&mut c, &mut t, &mut s, NT_GETMODULEHANDLEA, [0; 4])), BASE as i64);
    assert!(t.store_bytes(m, b"WriteFile\0"));
    let a = value(call(&mut c, &mut t, &mut s, NT_GETPROCADDRESS, [k, m, 0, 0])) as u64;
    assert_eq!(a, t.load64(BASE + 0x1940, 0).unwrap());
    assert!(t.store_bytes(m, b"Nothing\0"));
    assert_eq!(value(call(&mut c, &mut t, &mut s, NT_GETPROCADDRESS, [k, m, 0, 0])), 0);
    let o = call(&mut c, &mut t, &mut s, NT_NTDLL_FLAG | NT_LDRGETPROCEDUREADDRESS, [k, 0, 500, m]);
    assert_eq!(value(o), STATUS_PROCEDURE_NOT_FOUND as i64);
}

#[test]
fn native_events_signal() {
    let (mut s, mut t, mut c) = started();
    let m = value(call(&mut c, &mut t, &mut s, NT_HEAPALLOC, [0, 0, 100, 0])) as u64;
    let rsp = c.frame.rsp;
    assert!(t.store64(rsp, 0x28, 0));
    let n = NT_NTDLL_FLAG;
    assert_eq!(value(call(&mut c, &mut t, &mut s, n | NT_NTCREATEEVENT, [m, 0, 0, 1])), 0);
    let h = t.load64(m, 0).unwrap();
    assert!(t.store64(m, 8, 0));
    let o = call(&mut c, &mut t, &mut s, n | NT_NTWAITFORSINGLEOBJECT, [h, 0, m + 8, 0]);
    assert_eq!(value(o), STATUS_TIMEOUT as i64);
    assert!(t.store64(m, 8, -10_000_000i64 as u64));
    let o = call(&mut c, &mut t, &mut s, n | NT_NTWAITFORSINGLEOBJECT, [h, 0, m + 8, 0]);
    assert!(matches!(o, Outcome::PollEvent { event: 0, spins: 200_000 }));
    assert!(!poll_event(&mut s, 0));
    let o = call(&mut c, &mut t, &mut s, n | NT_NTWAITFORSINGLEOBJECT, [h, 0, 0, 0]);
    assert!(matches!(o, Outcome::WaitEvent(0)));
    assert_eq!(value(call(&mut c, &mut t, &mut s, n | NT_NTSETEVENT, [h, m, 0, 0])), 0);
    assert_eq!(s.woken, vec![5]);
    assert_eq!(t.load32(m, 0), Some(0));
    let o = call(&mut c, &mut t, &mut s, n | NT_NTSETEVENT, [99, 0, 0, 0]);
    assert_eq!(value(o), STATUS_INVALID_HANDLE as i64);
    assert_eq!(value(call(&mut c, &mut t, &mut s, n | 600, [0; 4])), STATUS_INVALID_PARAMETER as i64);
    let o = call(&mut c, &mut t, &mut s, n | NT_NTTERMINATEPROCESS, [0, 9, 0, 0]);
    assert!(matches!(o, Outcome::Exit(9)));
}

#[test]
fn registry_values_are_queried() {
    let (mut s, mut t, mut c) = started();
    let m = value(call(&mut c, &mut t, &mut s, NT_HEAPALLOC, [0, 0, 2000, 0])) as u64;
    let n = NT_NTDLL_FLAG;
    // OBJECT_ATTRIBUTES at m + 0x100 names the string at m + 0x200.
    wide(&mut t, m + 0x200, "\\Registry\\Machine\\Software\\Thos");
    assert!(t.store64(m, 0x110, m + 0x200));
    assert_eq!(value(call(&mut c, &mut t, &mut s, n | NT_NTCREATEKEY, [m, 0, m + 0x100, 0])), 0);
    let h = t.load64(m, 0).unwrap();
    wide(&mut t, m + 0x300, "Version");
    assert!(t.store_bytes(m + 0x400, b"one"));
    let rsp = c.frame.rsp;
    assert!(t.store64(rsp, 0x28, m + 0x400) && t.store64(rsp, 0x30, 3));
    let o = call(&mut c, &mut t, &mut s, n | NT_NTSETVALUEKEY, [h, m + 0x300, 0, 1]);
    assert_eq!(value(o), STATUS_SUCCESS as i64);
    wide(&mut t, m + 0x300, "VERSION");
    assert!(t.store64(rsp, 0x28, 100) && t.store64(rsp, 0x30, m + 0x10));
    let o = call(&mut c, &mut t, &mut s, n | NT_NTQUERYVALUEKEY, [h, m + 0x300, 2, m + 0x500]);
    assert_eq!(value(o), STATUS_SUCCESS as i64);
    assert_eq!(t.load32(m, 0x10), Some(15));
    assert_eq!(t.load32(m, 0x504), Some(1));
    assert_eq!(t.load32(m, 0x508), Some(3));
    assert_eq!(t.load_bytes(m + 0x50C, 3), Some(b"one".to_vec()));
    assert_eq!(value(call(&mut c, &mut t, &mut s, n | NT_NTDELETEKEY, [h, 0, 0, 0])), 0);
    let o = call(&mut c, &mut t, &mut s, n | NT_NTOPENKEY, [m, 0, m + 0x100, 0]);
    assert_eq!(value(o), STATUS_OBJECT_NAME_NOT_FOUND as i64);
}

fn exc(rsp: u64) -> ExcFrame {
    ExcFrame {
        r15: 15, r14: 14, r13: 13, r12: 12, rbp: 5, rbx: 3, r11: 11, r10: 10, r9: 9, r8: 8,
        rax: 1, rcx: 2, rdx: 4, rsi: 6, rdi: 7, rip: 0x1000, rflags: 0x202, rsp, cs: 0x2B, ss: 0x23,
    }
}

#[test]
fn faults_reach_an_armed_handler() {
    let (mut s, mut t, mut c) = started();
    let o = call(&mut c, &mut t, &mut s, NT_NTDLL_FLAG | NT_RTLADDVECTOREDEXCEPTIONHANDLER, [0, 0x5000, 0, 0]);
    assert!(value(o) != 0);
    let mut space = t.copy_space(&mut s.fa, 0x9000).unwrap();
    let rsp = c.frame.rsp;
    let mut f = exc(rsp);
    let r = thos_fault_dispatch(&mut space, &mut f, 14, 2, 0xDEAD);
    assert!(r == FaultAction::Resume);
    assert_eq!(f.rip, PE_KIUSER_ADDR);
    assert_eq!(f.rsp % 16, 0);
    assert_eq!(space.word32_at(f.rcx, 0), Some(STATUS_ACCESS_VIOLATION));
    assert_eq!(space.word64_at(f.rcx, 0x10), Some(0x1000));
    assert_eq!(space.word64_at(f.rcx, 0x20), Some(1));
    assert_eq!(space.word64_at(f.rcx, 0x28), Some(0xDEAD));
    // NtContinue on the pushed context goes back to where the fault was.
    let ctx = f.rdx;
    t.set_space(space);
    let o = call(&mut c, &mut t, &mut s, NT_NTDLL_FLAG | NT_NTCONTINUE, [ctx, 0, 0, 0]);
    match o {
        Outcome::Resume(g) => {
            let want = exc(rsp);
            assert_eq!((g.rip, g.rsp, g.rax, g.rcx), (want.rip, want.rsp, want.rax, want.rcx));
            assert_eq!((g.r15, g.rdi, g.rbx, g.rdx), (want.r15, want.rdi, want.rbx, want.rdx));
        }
        _ => panic!("resume"),
    }
}

#[test]
fn faults_without_a_handler_kill() {
    let mut p = Process::new(0x1000);
    let mut f = exc(0x9000);
    assert!(thos_fault_dispatch(&mut p, &mut f, 0, 0, 0) == FaultAction::Kill(136));
    assert!(thos_fault_dispatch(&mut p, &mut f, 6, 0, 0) == FaultAction::Kill(132));
    assert!(thos_fault_dispatch(&mut p, &mut f, 13, 0, 0) == FaultAction::Kill(139));
    f.cs = 8;
    assert!(thos_fault_dispatch(&mut p, &mut f, 14, 0, 0) == FaultAction::Fatal);
    assert_eq!(fault_name(6), "#UD invalid opcode");
}

#[test]
fn queued_calls_are_delivered_once() {
    let (mut s, mut t, mut c) = started();
    let rsp = c.frame.rsp;
    assert!(t.store64(rsp, 0x28, 33));
    let o = call(&mut c, &mut t, &mut s, NT_NTDLL_FLAG | NT_NTQUEUEAPCTHREAD, [u64::MAX - 1, 0x5000, 11, 22]);
    assert_eq!(value(o), 0);
    let r = regs(rsp);
    let (at, rip) = take_and_stage(&mut t, &r).unwrap().unwrap();
    assert_eq!(rip, PE_KIUSERAPC_ADDR);
    assert_eq!(at % 16, 0);
    assert!(matches!(take_and_stage(&mut t, &r), Some(None)));
    t.apc_queue(ApcEntry { routine: 1, arg1: 0, arg2: 0, arg3: 0 });
    assert!(take_and_stage(&mut t, &regs(0x100)).is_none());
}

fn regs(rsp: u64) -> Regs {
    Regs {
        rax: 1, rcx: 2, rdx: 3, rbx: 4, rsp, rbp: 5, rsi: 6, rdi: 7, r8: 8, r9: 9, r10: 10,
        r11: 11, r12: 12, r13: 13, r14: 14, r15: 15, rip: 0x1000, rflags: 0x202, cs: 0x2B, ss: 0x23,
    }
}

#[test]
fn contexts_have_the_win64_layout() {
    let b = write_context(&regs(0x8000));
    assert_eq!(b.len(), 0x4D0);
    assert_eq!(b[0x30..0x34], CONTEXT_FULL.to_le_bytes());
    assert_eq!(b[0x78..0x80], 1u64.to_le_bytes());
    assert_eq!(b[0x98..0xA0], 0x8000u64.to_le_bytes());
    assert_eq!(b[0xF8..0x100], 0x1000u64.to_le_bytes());
}

#[test]
fn image_has_one_personality() {
    let win = program("WriteFile", false);
    assert!(parse_header(&win).is_ok());
    let mut fa = frames(64);
    let mut p = Process::new(0x1000);
    assert_eq!(thos::elf::load(&mut p, &mut fa, &win).err(), Some("not an ELF"));
    let mut posix = vec![0u8; 128];
    put(&mut posix, 0, b"\x7fELF");
    assert!(parse_header(&posix).is_err());
}

#[test]
fn every_personality_writes_the_same() {
    let (mut s, mut t, mut c) = started();
    let m = value(call(&mut c, &mut t, &mut s, NT_HEAPALLOC, [0, 0, 100, 0])) as u64;
    assert!(t.store_bytes(m, b"same"));
    s.out.clear();
    assert_eq!(value(call(&mut c, &mut t, &mut s, NT_WRITEFILE, [1, m, 4, m + 16])), 1);
    let rsp = c.frame.rsp;
    assert!(t.store64(rsp, 0x28, m + 32) && t.store64(rsp, 0x30, m) && t.store64(rsp, 0x38, 4));
    let o = call(&mut c, &mut t, &mut s, NT_NTDLL_FLAG | NT_NTWRITEFILE, [1, 0, 0, 0]);
    assert_eq!(value(o), STATUS_SUCCESS as i64);
    c.frame.rax = SYS_WRITE;
    c.frame.rdi = 1;
    c.frame.rsi = m;
    c.frame.rdx = 4;
    assert_eq!(value(thos_syscall_dispatch(&mut c, &mut t, &mut s, &mut Progress::new())), 4);
    assert_eq!(s.out, b"samesamesame");
}

#[test]
fn trampolines_reach_the_nt_personality() {
    let (mut s, mut t, mut c) = started();
    c.frame.rax = 0x4E54_0001;
    c.frame.r10 = 0xFFFF_FFF5;
    let before = c;
    let o = thos_syscall_dispatch(&mut c, &mut t, &mut s, &mut Progress::new());
    assert_eq!(value(o), 1);
    assert_eq!(c.frame.rax, 1);
    assert_eq!((c.frame.r10, c.frame.rdx, c.frame.rip), (before.frame.r10, before.frame.rdx, before.frame.rip));
    // The native layer, through the flag bit.
    c.frame.rax = NT_BASE | (NT_NTDLL_FLAG | NT_NTTERMINATEPROCESS) as u64;
    c.frame.rdx = 3;
    let o = thos_syscall_dispatch(&mut c, &mut t, &mut s, &mut Progress::new());
    assert!(matches!(o, Outcome::Exit(3)));
    // Just outside the range.
    for nr in [NT_BASE - 1, (NT_BASE | 0xFFFF) + 1] {
        c.frame.rax = nr;
        let o = thos_syscall_dispatch(&mut c, &mut t, &mut s, &mut Progress::new());
        assert_eq!(value(o), -38);
    }
}
