//! The Win32 (`kernel32`) calls: `BOOL` results, the last-error value in the
//! TEB, descriptors as handles.
//!
//! The arguments come in `r10`, `rdx`, `r8` and `r9`; further ones lie on the
//! user stack from `rsp + 0x28` on.
use vstd::prelude::*;

use crate::bytes;
use crate::nt;
use crate::nt_names;
use crate::process;
use crate::sys;
use crate::sys::{Caller, Outcome, Read, Step, Sv, Sys, Wrote};
use crate::task;
use crate::task::{Task, Tv};

verus! {

pub const INVALID_HANDLE_VALUE: i64 = -1;

pub const ERROR_FILE_NOT_FOUND: u32 = 2;

pub const ERROR_INVALID_HANDLE: u32 = 6;

pub const ERROR_NOT_ENOUGH_MEMORY: u32 = 8;

pub const ERROR_MOD_NOT_FOUND: u32 = 126;

pub const ERROR_PROC_NOT_FOUND: u32 = 127;

/// The last error set, where the thread has a TEB.
pub open spec fn error_set(t: Tv, gs: u64, err: u32) -> Option<Tv> {
    if gs == 0 {
        Some(t)
    } else {
        task::poked(t, gs + 0x68, bytes::bytes32(err))
    }
}

/// The call fails with `v`, the last error set.
pub open spec fn fails(c: Caller, t: Tv, s: Sv, err: u32, v: i64) -> Step {
    match error_set(t, c.gsbase, err) {
        Some(t2) => sys::back(c, t2, s, v),
        None => None,
    }
}

/// A 32-bit result stored where `at` is not null, and the call returns `v`.
pub open spec fn reports(c: Caller, t: Tv, s: Sv, at: u64, n: u32, v: i64) -> Step {
    if at == 0 {
        sys::back(c, t, s, v)
    } else {
        match task::poked(t, at as int, bytes::bytes32(n)) {
            Some(t2) => sys::back(c, t2, s, v),
            None => None,
        }
    }
}

fn set_last_error(c: &Caller, t: &mut Task, err: u32) -> (ok: bool)
    requires
        old(t).wf(),
    ensures
        final(t).wf(),
        final(t).pml4() == old(t).pml4(),
        match error_set(old(t)@, c.gsbase, err) {
            Some(t2) => ok && final(t)@ == t2,
            None => !ok && final(t)@ == old(t)@,
        },
{
    if c.gsbase == 0 {
        true
    } else {
        t.store32(c.gsbase, 0x68, err)
    }
}

fn fail(c: &Caller, t: &mut Task, s: &Sys, err: u32, v: i64) -> (r: Outcome)
    requires
        old(t).wf(),
    ensures
        final(t).wf(),
        final(t).pml4() == old(t).pml4(),
        sys::meets(fails(*c, old(t)@, s@, err, v), *c, final(t)@, s@, r),
{
    if set_last_error(c, t, err) {
        Outcome::Return(v)
    } else {
        Outcome::Fault
    }
}

fn report(c: &Caller, t: &mut Task, s: &Sys, at: u64, n: u32, v: i64) -> (r: Outcome)
    requires
        old(t).wf(),
    ensures
        final(t).wf(),
        final(t).pml4() == old(t).pml4(),
        sys::meets(reports(*c, old(t)@, s@, at, n, v), *c, final(t)@, s@, r),
{
    if at == 0 {
        return Outcome::Return(v);
    }
    if t.store32(at, 0, n) {
        Outcome::Return(v)
    } else {
        Outcome::Fault
    }
}

/// `ExitProcess(code)`.
pub open spec fn exit_process(c: Caller, t: Tv, s: Sv) -> Step {
    let code = c.frame.r10 as i32;
    let (t2, s2) = sys::ended(t, s, code);
    Some((c, t2, s2, Outcome::Exit(code)))
}

/// `GetStdHandle(which)`: the descriptor of a standard stream.
pub open spec fn std_handle(which: i32) -> i64 {
    if which == -10 {
        0
    } else if which == -11 {
        1
    } else if which == -12 {
        2
    } else {
        INVALID_HANDLE_VALUE
    }
}

/// `WriteFile(handle, buf, len, *written)`.
pub open spec fn write_file(c: Caller, t: Tv, s: Sv, done: u64) -> Step {
    let f = c.frame;
    match sys::written(t, s, f.r10 as i32, f.rdx, f.r8, done) {
        None => None,
        Some((s2, Wrote::NoFile)) => sys::back(c, t, s2, 0),
        Some((s2, Wrote::Done(n))) => if n < 0 {
            sys::back(c, t, s2, 0)
        } else {
            reports(c, t, s2, f.r9, n as u32, 1)
        },
        Some((s2, Wrote::Block(id, d))) => Some((c, t, s2, Outcome::Block { file: id, done: d })),
    }
}

fn do_write_file(c: &Caller, t: &mut Task, s: &mut Sys, done: u64) -> (r: Outcome)
    requires
        old(t).wf(),
        old(s).wf(),
    ensures
        final(t).wf(),
        final(s).wf(),
        final(t).pml4() == old(t).pml4(),
        sys::meets(write_file(*c, old(t)@, old(s)@, done), *c, final(t)@, final(s)@, r),
{
    let f = c.frame;
    match crate::sys::write(t, s, f.r10 as i32, f.rdx, f.r8, done) {
        None => Outcome::Fault,
        Some(Wrote::NoFile) => Outcome::Return(0),
        Some(Wrote::Done(n)) => if n < 0 {
            Outcome::Return(0)
        } else {
            report(c, t, s, f.r9, n as u32, 1)
        },
        Some(Wrote::Block(id, d)) => Outcome::Block { file: id, done: d },
    }
}

/// `ReadFile(handle, buf, len, *read)`; the end of a file is a success.
pub open spec fn read_file(c: Caller, t: Tv, s: Sv) -> Step {
    let f = c.frame;
    match sys::readed(t, s, f.r10 as i32, f.rdx, f.r8) {
        None => None,
        Some((t2, s2, Read::NoFile)) => fails(c, t2, s2, ERROR_INVALID_HANDLE, 0),
        Some((t2, s2, Read::Done(n))) => if n < 0 {
            fails(c, t2, s2, ERROR_INVALID_HANDLE, 0)
        } else {
            reports(c, t2, s2, f.r9, n as u32, 1)
        },
        Some((t2, s2, Read::Block(id))) => Some((c, t2, s2, Outcome::Block { file: id, done: 0 })),
    }
}

fn do_read_file(c: &Caller, t: &mut Task, s: &mut Sys) -> (r: Outcome)
    requires
        old(t).wf(),
        old(s).wf(),
    ensures
        final(t).wf(),
        final(s).wf(),
        final(t).pml4() == old(t).pml4(),
        sys::meets(read_file(*c, old(t)@, old(s)@), *c, final(t)@, final(s)@, r),
{
    let f = c.frame;
    match crate::sys::read(t, s, f.r10 as i32, f.rdx, f.r8) {
        None => Outcome::Fault,
        Some(Read::NoFile) => fail(c, t, s, ERROR_INVALID_HANDLE, 0),
        Some(Read::Done(n)) => if n < 0 {
            fail(c, t, s, ERROR_INVALID_HANDLE, 0)
        } else {
            report(c, t, s, f.r9, n as u32, 1)
        },
        Some(Read::Block(id)) => Outcome::Block { file: id, done: 0 },
    }
}

/// `CreateFileA(name, .., disposition, ..)`: only an existing file is opened,
/// for reading.
pub open spec fn create_file(c: Caller, t: Tv, s: Sv) -> Step {
    match (
        nt_names::latin(t.space.mem, c.frame.r10),
        process::word32(t.space.mem, c.frame.rsp + 0x28),
    ) {
        (Some(name), Some(disposition)) => if disposition != 3 {
            fails(c, t, s, ERROR_FILE_NOT_FOUND, INVALID_HANDLE_VALUE)
        } else {
            match sys::path_opened(c, t, s, nt_names::native_path(name)) {
                Some((_, t2, s2, Outcome::Return(fd))) => if fd < 0 {
                    fails(c, t2, s2, ERROR_FILE_NOT_FOUND, INVALID_HANDLE_VALUE)
                } else {
                    sys::back(c, t2, s2, fd)
                },
                other => other,
            }
        },
        _ => None,
    }
}

fn do_create_file(c: &Caller, t: &mut Task, s: &mut Sys) -> (r: Outcome)
    requires
        old(t).wf(),
        old(s).wf(),
    ensures
        final(t).wf(),
        final(s).wf(),
        final(t).pml4() == old(t).pml4(),
        sys::meets(create_file(*c, old(t)@, old(s)@), *c, final(t)@, final(s)@, r),
{
    let name = match crate::nt_names::user_cstr(t, c.frame.r10) {
        Some(n) => n,
        None => { return Outcome::Fault; },
    };
    let disposition: u32 = match t.load32(c.frame.rsp, 0x28) {
        Some(v) => v,
        None => { return Outcome::Fault; },
    };
    if disposition != 3 {
        return fail(c, t, s, ERROR_FILE_NOT_FOUND, INVALID_HANDLE_VALUE);
    }
    let path = crate::nt_names::win_path_to_thos(name.as_slice());
    let o = crate::sys::open_resolved(c, t, s, path.as_slice());
    match o {
        Outcome::Return(fd) => if fd < 0 {
            fail(c, t, s, ERROR_FILE_NOT_FOUND, INVALID_HANDLE_VALUE)
        } else {
            o
        },
        _ => o,
    }
}

/// `CloseHandle(handle)`.
pub open spec fn close_handle(c: Caller, t: Tv, s: Sv) -> Step {
    let (t2, s2, ok) = sys::closed(t, s, c.frame.r10 as i32);
    if ok {
        sys::back(c, t2, s2, 1)
    } else {
        fails(c, t2, s2, ERROR_INVALID_HANDLE, 0)
    }
}

fn do_close_handle(c: &Caller, t: &mut Task, s: &mut Sys) -> (r: Outcome)
    requires
        old(t).wf(),
        old(s).wf(),
    ensures
        final(t).wf(),
        final(s).wf(),
        final(t).pml4() == old(t).pml4(),
        sys::meets(close_handle(*c, old(t)@, old(s)@), *c, final(t)@, final(s)@, r),
{
    if crate::sys::close(t, s, c.frame.r10 as i32) {
        Outcome::Return(1)
    } else {
        fail(c, t, s, ERROR_INVALID_HANDLE, 0)
    }
}

/// `GetLastError()`; 0 for a thread without a TEB.
pub open spec fn last_error(c: Caller, t: Tv, s: Sv) -> Step {
    if c.gsbase == 0 {
        sys::back(c, t, s, 0)
    } else {
        match process::word32(t.space.mem, c.gsbase + 0x68) {
            Some(e) => sys::back(c, t, s, e as i64),
            None => None,
        }
    }
}

fn do_last_error(c: &Caller, t: &Task, s: &Sys) -> (r: Outcome)
    requires
        t.wf(),
    ensures
        sys::meets(last_error(*c, t@, s@), *c, t@, s@, r),
{
    if c.gsbase == 0 {
        return Outcome::Return(0);
    }
    match t.load32(c.gsbase, 0x68) {
        Some(e) => Outcome::Return(e as i64),
        None => Outcome::Fault,
    }
}

/// The base of the module a user string names, or 0 and the last error.
pub open spec fn module_handle(c: Caller, t: Tv, s: Sv, name: u64) -> Step {
    match nt_names::latin(t.space.mem, name) {
        None => None,
        Some(n) => match nt_names::module_base(
            t.space.mem,
            c.gsbase,
            nt_names::mod_name(n),
        ) {
            None => None,
            Some(b) => if b != 0 {
                sys::back(c, t, s, b as i64)
            } else {
                fails(c, t, s, ERROR_MOD_NOT_FOUND, 0)
            },
        },
    }
}

fn do_module_handle(c: &Caller, t: &mut Task, s: &Sys, name: u64) -> (r: Outcome)
    requires
        old(t).wf(),
    ensures
        final(t).wf(),
        final(t).pml4() == old(t).pml4(),
        sys::meets(module_handle(*c, old(t)@, s@, name), *c, final(t)@, s@, r),
{
    let n = match crate::nt_names::user_cstr(t, name) {
        Some(n) => n,
        None => { return Outcome::Fault; },
    };
    let want = crate::nt_names::normalize_mod(n.as_slice());
    match crate::nt_names::ldr_find(t, c.gsbase, want.as_slice()) {
        None => Outcome::Fault,
        Some(b) => if b != 0 {
            Outcome::Return(b as i64)
        } else {
            fail(c, t, s, ERROR_MOD_NOT_FOUND, 0)
        },
    }
}

/// `GetModuleHandleA(name)`; without a name, the program's own base.
pub open spec fn get_module_handle(c: Caller, t: Tv, s: Sv) -> Step {
    if c.frame.r10 != 0 {
        module_handle(c, t, s, c.frame.r10)
    } else if c.gsbase == 0 {
        sys::back(c, t, s, 0)
    } else {
        match process::word64(t.space.mem, c.gsbase + 0x60) {
            None => None,
            Some(peb) => match process::word64(t.space.mem, peb + 0x10) {
                None => None,
                Some(base) => sys::back(c, t, s, base as i64),
            },
        }
    }
}

fn do_get_module_handle(c: &Caller, t: &mut Task, s: &Sys) -> (r: Outcome)
    requires
        old(t).wf(),
    ensures
        final(t).wf(),
        final(t).pml4() == old(t).pml4(),
        sys::meets(get_module_handle(*c, old(t)@, s@), *c, final(t)@, s@, r),
{
    if c.frame.r10 != 0 {
        return do_module_handle(c, t, s, c.frame.r10);
    }
    if c.gsbase == 0 {
        return Outcome::Return(0);
    }
    match t.load64(c.gsbase, 0x60) {
        None => Outcome::Fault,
        Some(peb) => match t.load64(peb, 0x10) {
            None => Outcome::Fault,
            Some(base) => Outcome::Return(base as i64),
        },
    }
}

/// `GetProcAddress(module, name or ordinal)`.
pub open spec fn get_proc_address(c: Caller, t: Tv, s: Sv) -> Step {
    let m = t.space.mem;
    let found = if c.frame.rdx < 0x10000 {
        nt_names::ordinal_addr(m, c.gsbase, c.frame.r10, c.frame.rdx as u16, 0)
    } else {
        match nt_names::latin(m, c.frame.rdx) {
            None => None,
            Some(n) => nt_names::name_addr(m, c.gsbase, c.frame.r10, n, 0),
        }
    };
    match found {
        None => None,
        Some(a) => if a == 0 {
            fails(c, t, s, ERROR_PROC_NOT_FOUND, 0)
        } else {
            sys::back(c, t, s, a)
        },
    }
}

fn do_get_proc_address(c: &Caller, t: &mut Task, s: &Sys) -> (r: Outcome)
    requires
        old(t).wf(),
    ensures
        final(t).wf(),
        final(t).pml4() == old(t).pml4(),
        sys::meets(get_proc_address(*c, old(t)@, s@), *c, final(t)@, s@, r),
{
    let found = if c.frame.rdx < 0x10000 {
        crate::nt_names::export_by_ordinal(t, c.gsbase, c.frame.r10, c.frame.rdx as u16, 0)
    } else {
        match crate::nt_names::user_cstr(t, c.frame.rdx) {
            None => None,
            Some(n) => crate::nt_names::export_by_name(
                t,
                c.gsbase,
                c.frame.r10,
                n.as_slice(),
                0,
            ),
        }
    };
    match found {
        None => Outcome::Fault,
        Some(a) => if a == 0 {
            fail(c, t, s, ERROR_PROC_NOT_FOUND, 0)
        } else {
            Outcome::Return(a)
        },
    }
}

/// One anonymous mapping of at least one byte: its base, 0 where memory ran
/// out.
pub open spec fn allocated(t: Tv, s: Sv, size: u64) -> (Tv, Sv, u64) {
    let (t2, free, base) = task::mmapped(
        t,
        s.free,
        if size < 1 {
            1
        } else {
            size
        },
    );
    (
        t2,
        Sv { free, ..s },
        match base {
            Some(b) => b,
            None => 0,
        },
    )
}

/// One anonymous zeroed mapping; 0 on failure.
pub fn mem_alloc_core(t: &mut Task, s: &mut Sys, size: u64) -> (r: u64)
    requires
        old(t).wf(),
        old(s).wf(),
    ensures
        final(t).wf(),
        final(s).wf(),
        final(t).pml4() == old(t).pml4(),
        (final(t)@, final(s)@, r) == allocated(old(t)@, old(s)@, size),
{
    match t.mmap(&mut s.fa, if size < 1 { 1 } else { size }) {
        Some(b) => b,
        None => 0,
    }
}

/// `VirtualAlloc(.., size, ..)`.
pub open spec fn virtual_alloc(c: Caller, t: Tv, s: Sv) -> Step {
    let (t2, s2, base) = allocated(t, s, c.frame.rdx);
    if base == 0 {
        fails(c, t2, s2, ERROR_NOT_ENOUGH_MEMORY, 0)
    } else {
        sys::back(c, t2, s2, base as i64)
    }
}

fn do_virtual_alloc(c: &Caller, t: &mut Task, s: &mut Sys) -> (r: Outcome)
    requires
        old(t).wf(),
        old(s).wf(),
    ensures
        final(t).wf(),
        final(s).wf(),
        final(t).pml4() == old(t).pml4(),
        sys::meets(virtual_alloc(*c, old(t)@, old(s)@), *c, final(t)@, final(s)@, r),
{
    let base: u64 = mem_alloc_core(t, s, c.frame.rdx);
    if base == 0 {
        fail(c, t, s, ERROR_NOT_ENOUGH_MEMORY, 0)
    } else {
        Outcome::Return(base as i64)
    }
}

/// What `kernel32` call `idx` comes to.
pub open spec fn kernel32(idx: u16, done: u64, c: Caller, t: Tv, s: Sv) -> Step {
    if idx == nt::NT_EXITPROCESS {
        exit_process(c, t, s)
    } else if idx == nt::NT_GETSTDHANDLE {
        sys::back(c, t, s, std_handle(c.frame.r10 as i32))
    } else if idx == nt::NT_WRITEFILE {
        write_file(c, t, s, done)
    } else if idx == nt::NT_READFILE {
        read_file(c, t, s)
    } else if idx == nt::NT_CREATEFILEA {
        create_file(c, t, s)
    } else if idx == nt::NT_CLOSEHANDLE {
        close_handle(c, t, s)
    } else if idx == nt::NT_GETLASTERROR {
        last_error(c, t, s)
    } else if idx == nt::NT_SETLASTERROR {
        fails(c, t, s, c.frame.r10 as u32, 0)
    } else if idx == nt::NT_GETCOMMANDLINEA {
        sys::back(c, t, s, crate::pe_pages::PE_ANSI_CMDLINE_ADDR as i64)
    } else if idx == nt::NT_GETMODULEHANDLEA {
        get_module_handle(c, t, s)
    } else if idx == nt::NT_LOADLIBRARYA {
        module_handle(c, t, s, c.frame.r10)
    } else if idx == nt::NT_GETPROCADDRESS {
        get_proc_address(c, t, s)
    } else if idx == nt::NT_VIRTUALALLOC {
        virtual_alloc(c, t, s)
    } else if idx == nt::NT_VIRTUALFREE || idx == nt::NT_VIRTUALPROTECT || idx == nt::NT_HEAPFREE {
        sys::back(c, t, s, 1)
    } else if idx == nt::NT_GETPROCESSHEAP {
        sys::back(c, t, s, crate::pe_pages::PE_PROCESS_HEAP as i64)
    } else if idx == nt::NT_HEAPALLOC {
        let (t2, s2, base) = allocated(t, s, c.frame.r8);
        sys::back(c, t2, s2, base as i64)
    } else {
        sys::back(c, t, s, 0)
    }
}

/// Serve a `kernel32` call; `done` is how much of a write was done before.
pub fn dispatch_kernel32(idx: u16, done: u64, c: &Caller, t: &mut Task, s: &mut Sys) -> (r: Outcome)
    requires
        old(t).wf(),
        old(s).wf(),
    ensures
        final(t).wf(),
        final(s).wf(),
        final(t).pml4() == old(t).pml4(),
        sys::meets(kernel32(idx, done, *c, old(t)@, old(s)@), *c, final(t)@, final(s)@, r),
{
    if idx == nt::NT_EXITPROCESS {
        let code: i32 = c.frame.r10 as i32;
        crate::sys::end(t, s, code);
        Outcome::Exit(code)
    } else if idx == nt::NT_GETSTDHANDLE {
        let which: i32 = c.frame.r10 as i32;
        if which == -10 {
            Outcome::Return(0)
        } else if which == -11 {
            Outcome::Return(1)
        } else if which == -12 {
            Outcome::Return(2)
        } else {
            Outcome::Return(INVALID_HANDLE_VALUE)
        }
    } else if idx == nt::NT_WRITEFILE {
        do_write_file(c, t, s, done)
    } else if idx == nt::NT_READFILE {
        do_read_file(c, t, s)
    } else if idx == nt::NT_CREATEFILEA {
        do_create_file(c, t, s)
    } else if idx == nt::NT_CLOSEHANDLE {
        do_close_handle(c, t, s)
    } else if idx == nt::NT_GETLASTERROR {
        do_last_error(c, t, s)
    } else if idx == nt::NT_SETLASTERROR {
        fail(c, t, s, c.frame.r10 as u32, 0)
    } else if idx == nt::NT_GETCOMMANDLINEA {
        Outcome::Return(crate::pe_pages::PE_ANSI_CMDLINE_ADDR as i64)
    } else if idx == nt::NT_GETMODULEHANDLEA {
        do_get_module_handle(c, t, s)
    } else if idx == nt::NT_LOADLIBRARYA {
        do_module_handle(c, t, s, c.frame.r10)
    } else if idx == nt::NT_GETPROCADDRESS {
        do_get_proc_address(c, t, s)
    } else if idx == nt::NT_VIRTUALALLOC {
        do_virtual_alloc(c, t, s)
    } else if idx == nt::NT_VIRTUALFREE || idx == nt::NT_VIRTUALPROTECT || idx == nt::NT_HEAPFREE {
        Outcome::Return(1)
    } else if idx == nt::NT_GETPROCESSHEAP {
        Outcome::Return(crate::pe_pages::PE_PROCESS_HEAP as i64)
    } else if idx == nt::NT_HEAPALLOC {
        let base: u64 = mem_alloc_core(t, s, c.frame.r8);
        Outcome::Return(base as i64)
    } else {
        Outcome::Return(0)
    }
}

/// What one thread set as its last error it reads back.
pub proof fn law_last_error_is_read_back(c: Caller, t: Tv, s: Sv, err: u32)
    requires
        c.gsbase != 0,
        process::mapped(t.space.mem, c.gsbase + 0x68, 4),
    ensures
        ({
            let set = fails(c, t, s, err, 0);
            set matches Some((c2, t2, s2, _)) && last_error(c2, t2, s2) == sys::back(
                c2,
                t2,
                s2,
                err as i64,
            )
        }),
{
    let a = c.gsbase + 0x68;
    let b = bytes::bytes32(err);
    let m2 = process::poke(t.space.mem, a, b);
    assert(process::peek(m2, a, 4) =~= b);
    bytes::lemma_le32_of_splice(bytes::zeros(4), 0, err);
    assert(bytes::splice(bytes::zeros(4), 0, b) =~= b);
    assert forall|i: int| a <= i < a + 4 implies #[trigger] m2.contains_key(i) by {}
}

} // verus!
