//! The native NT (`ntdll`) services: `NTSTATUS` results, status blocks, in-out
//! pointers.
//!
//! The arguments come in `r10`, `rdx`, `r8` and `r9`; further ones lie on the
//! user stack from `rsp + 0x28` on.
use vstd::prelude::*;

use crate::apc;
use crate::apc::{ApcEntry, Regs};
use crate::bytes;
use crate::nt;
use crate::nt_kernel32;
use crate::nt_names;
use crate::process;
use crate::process::Space;
use crate::registry;
use crate::seh;
use crate::seh::ExcFrame;
use crate::sys;
use crate::sys::{Caller, Outcome, Read, Step, Sv, Sys, UserFrame, Wrote};
use crate::task;
use crate::task::{Fd, Obj, Task, Tv};
use crate::text;
use crate::wait;
use crate::wait::{Ev, Event, EventMode};

verus! {

pub const STATUS_SUCCESS: u32 = 0x0000_0000;

pub const STATUS_TIMEOUT: u32 = 0x0000_0102;

pub const STATUS_INVALID_INFO_CLASS: u32 = 0xC000_0003;

pub const STATUS_INFO_LENGTH_MISMATCH: u32 = 0xC000_0004;

pub const STATUS_INVALID_HANDLE: u32 = 0xC000_0008;

pub const STATUS_INVALID_PARAMETER: u32 = 0xC000_000D;

pub const STATUS_END_OF_FILE: u32 = 0xC000_0011;

pub const STATUS_NO_MEMORY: u32 = 0xC000_0017;

pub const STATUS_OBJECT_NAME_NOT_FOUND: u32 = 0xC000_0034;

pub const STATUS_PROCEDURE_NOT_FOUND: u32 = 0xC000_007A;

pub const STATUS_DLL_NOT_FOUND: u32 = 0xC000_0135;

/// The service returns a status.
pub open spec fn gives(c: Caller, t: Tv, s: Sv, st: u32) -> Step {
    sys::back(c, t, s, st as i64)
}

/// Success, or the given status.
pub open spec fn status(c: Caller, t: Tv, s: Sv, ok: bool, err: u32) -> Step {
    gives(
        c,
        t,
        s,
        if ok {
            STATUS_SUCCESS
        } else {
            err
        },
    )
}

fn give(st: u32) -> (r: Outcome)
    ensures
        r == Outcome::Return(st as i64),
{
    Outcome::Return(st as i64)
}

/// The `i`-th argument on the stack.
pub open spec fn stack(c: Caller, t: Tv, i: int) -> Option<u64> {
    process::word64(t.space.mem, c.frame.rsp + (0x28 + i * 8))
}

fn stack_arg(c: &Caller, t: &Task, i: u64) -> (r: Option<u64>)
    requires
        t.wf(),
        i < 16,
    ensures
        r == stack(*c, t@, i as int),
{
    t.load64(c.frame.rsp, 0x28 + i * 8)
}

/// A 64-bit result stored where `at` is not null; then the status.
pub open spec fn puts64(c: Caller, t: Tv, s: Sv, at: u64, v: u64, st: u32) -> Step {
    if at == 0 {
        gives(c, t, s, st)
    } else {
        match task::poked(t, at as int, bytes::bytes64(v)) {
            Some(t2) => gives(c, t2, s, st),
            None => None,
        }
    }
}

fn put_opt64(t: &mut Task, at: u64, v: u64, st: u32) -> (r: Outcome)
    requires
        old(t).wf(),
    ensures
        final(t).wf(),
        final(t).pml4() == old(t).pml4(),
        forall|c: Caller, s: Sv|
            sys::meets(#[trigger] puts64(c, old(t)@, s, at, v, st), c, final(t)@, s, r),
{
    if at == 0 {
        return give(st);
    }
    if t.store64(at, 0, v) {
        give(st)
    } else {
        Outcome::Fault
    }
}

/// A 32-bit result stored where `at` is not null; then the status.
pub open spec fn puts32(c: Caller, t: Tv, s: Sv, at: u64, v: u32, st: u32) -> Step {
    if at == 0 {
        gives(c, t, s, st)
    } else {
        match task::poked(t, at as int, bytes::bytes32(v)) {
            Some(t2) => gives(c, t2, s, st),
            None => None,
        }
    }
}

fn put_opt32(t: &mut Task, at: u64, v: u32, st: u32) -> (r: Outcome)
    requires
        old(t).wf(),
    ensures
        final(t).wf(),
        final(t).pml4() == old(t).pml4(),
        forall|c: Caller, s: Sv|
            sys::meets(#[trigger] puts32(c, old(t)@, s, at, v, st), c, final(t)@, s, r),
{
    if at == 0 {
        return give(st);
    }
    if t.store32(at, 0, v) {
        give(st)
    } else {
        Outcome::Fault
    }
}

// --- files ---

/// The `IO_STATUS_BLOCK` filled, where there is one; then the status.
pub open spec fn iosb(c: Caller, t: Tv, s: Sv, at: u64, st: u32, n: u64) -> Step {
    if at == 0 {
        gives(c, t, s, st)
    } else {
        match task::poked(t, at as int, bytes::bytes32(st)) {
            None => None,
            Some(t2) => match task::poked(t2, at + 8, bytes::bytes64(n)) {
                None => None,
                Some(t3) => gives(c, t3, s, st),
            },
        }
    }
}

fn write_iosb(t: &mut Task, at: u64, st: u32, n: u64) -> (r: Outcome)
    requires
        old(t).wf(),
    ensures
        final(t).wf(),
        final(t).pml4() == old(t).pml4(),
        forall|c: Caller, s: Sv|
            sys::meets(#[trigger] iosb(c, old(t)@, s, at, st, n), c, final(t)@, s, r),
{
    if at == 0 {
        return give(st);
    }
    if !t.store32(at, 0, st) {
        return Outcome::Fault;
    }
    if t.store64(at, 8, n) {
        give(st)
    } else {
        Outcome::Fault
    }
}

/// `NtWriteFile`.
pub open spec fn nt_write(c: Caller, t: Tv, s: Sv, done: u64) -> Step {
    match (stack(c, t, 0), stack(c, t, 1), stack(c, t, 2)) {
        (Some(at), Some(buf), Some(len)) => match sys::written(
            t,
            s,
            c.frame.r10 as i32,
            buf,
            len,
            done,
        ) {
            None => None,
            Some((s2, Wrote::NoFile)) => gives(c, t, s2, STATUS_INVALID_HANDLE),
            Some((s2, Wrote::Done(n))) => if n < 0 {
                gives(c, t, s2, STATUS_INVALID_HANDLE)
            } else {
                iosb(c, t, s2, at, STATUS_SUCCESS, n as u64)
            },
            Some((s2, Wrote::Block(id, d))) => Some(
                (c, t, s2, Outcome::Block { file: id, done: d }),
            ),
        },
        _ => None,
    }
}

fn do_write(c: &Caller, t: &mut Task, s: &mut Sys, done: u64) -> (r: Outcome)
    requires
        old(t).wf(),
        old(s).wf(),
    ensures
        final(t).wf(),
        final(s).wf(),
        final(t).pml4() == old(t).pml4(),
        sys::meets(nt_write(*c, old(t)@, old(s)@, done), *c, final(t)@, final(s)@, r),
{
    match (stack_arg(c, t, 0), stack_arg(c, t, 1), stack_arg(c, t, 2)) {
        (Some(at), Some(buf), Some(len)) => match crate::sys::write(
            t,
            s,
            c.frame.r10 as i32,
            buf,
            len,
            done,
        ) {
            None => Outcome::Fault,
            Some(Wrote::NoFile) => give(STATUS_INVALID_HANDLE),
            Some(Wrote::Done(n)) => if n < 0 {
                give(STATUS_INVALID_HANDLE)
            } else {
                proof {
                    let w = iosb(*c, t@, s@, at, STATUS_SUCCESS, n as u64);
                }
                write_iosb(t, at, STATUS_SUCCESS, n as u64)
            },
            Some(Wrote::Block(id, d)) => Outcome::Block { file: id, done: d },
        },
        _ => Outcome::Fault,
    }
}

/// `NtReadFile`; nothing read is the end of the file.
pub open spec fn nt_read(c: Caller, t: Tv, s: Sv) -> Step {
    match (stack(c, t, 0), stack(c, t, 1), stack(c, t, 2)) {
        (Some(at), Some(buf), Some(len)) => match sys::readed(
            t,
            s,
            c.frame.r10 as i32,
            buf,
            len,
        ) {
            None => None,
            Some((t2, s2, Read::NoFile)) => gives(c, t2, s2, STATUS_INVALID_HANDLE),
            Some((t2, s2, Read::Done(n))) => if n < 0 {
                gives(c, t2, s2, STATUS_INVALID_HANDLE)
            } else {
                iosb(
                    c,
                    t2,
                    s2,
                    at,
                    if n == 0 {
                        STATUS_END_OF_FILE
                    } else {
                        STATUS_SUCCESS
                    },
                    n as u64,
                )
            },
            Some((t2, s2, Read::Block(id))) => Some(
                (c, t2, s2, Outcome::Block { file: id, done: 0 }),
            ),
        },
        _ => None,
    }
}

fn do_read(c: &Caller, t: &mut Task, s: &mut Sys) -> (r: Outcome)
    requires
        old(t).wf(),
        old(s).wf(),
    ensures
        final(t).wf(),
        final(s).wf(),
        final(t).pml4() == old(t).pml4(),
        sys::meets(nt_read(*c, old(t)@, old(s)@), *c, final(t)@, final(s)@, r),
{
    match (stack_arg(c, t, 0), stack_arg(c, t, 1), stack_arg(c, t, 2)) {
        (Some(at), Some(buf), Some(len)) => match crate::sys::read(
            t,
            s,
            c.frame.r10 as i32,
            buf,
            len,
        ) {
            None => Outcome::Fault,
            Some(Read::NoFile) => give(STATUS_INVALID_HANDLE),
            Some(Read::Done(n)) => if n < 0 {
                give(STATUS_INVALID_HANDLE)
            } else {
                let st: u32 = if n == 0 { STATUS_END_OF_FILE } else { STATUS_SUCCESS };
                proof {
                    let w = iosb(*c, t@, s@, at, st, n as u64);
                }
                write_iosb(t, at, st, n as u64)
            },
            Some(Read::Block(id)) => Outcome::Block { file: id, done: 0 },
        },
        _ => Outcome::Fault,
    }
}

// --- memory and process information ---

/// `NtAllocateVirtualMemory(.., *base, .., *size, ..)`.
pub open spec fn nt_alloc(c: Caller, t: Tv, s: Sv) -> Step {
    let (base_pp, size_pp) = (c.frame.rdx, c.frame.r9);
    if base_pp == 0 || size_pp == 0 {
        gives(c, t, s, STATUS_INVALID_PARAMETER)
    } else {
        match process::word64(t.space.mem, size_pp as int) {
            None => None,
            Some(size) => {
                let (t2, s2, base) = nt_kernel32::allocated(t, s, size);
                if base == 0 {
                    gives(c, t2, s2, STATUS_NO_MEMORY)
                } else {
                    match task::poked(t2, base_pp as int, bytes::bytes64(base)) {
                        None => None,
                        Some(t3) => match task::poked(
                            t3,
                            size_pp as int,
                            bytes::bytes64(process::page_up(size as int) as u64),
                        ) {
                            None => None,
                            Some(t4) => gives(c, t4, s2, STATUS_SUCCESS),
                        },
                    }
                }
            },
        }
    }
}

fn do_alloc(c: &Caller, t: &mut Task, s: &mut Sys) -> (r: Outcome)
    requires
        old(t).wf(),
        old(s).wf(),
    ensures
        final(t).wf(),
        final(s).wf(),
        final(t).pml4() == old(t).pml4(),
        sys::meets(nt_alloc(*c, old(t)@, old(s)@), *c, final(t)@, final(s)@, r),
{
    let base_pp: u64 = c.frame.rdx;
    let size_pp: u64 = c.frame.r9;
    if base_pp == 0 || size_pp == 0 {
        return give(STATUS_INVALID_PARAMETER);
    }
    let size: u64 = match t.load64(size_pp, 0) {
        Some(v) => v,
        None => { return Outcome::Fault; },
    };
    let base: u64 = crate::nt_kernel32::mem_alloc_core(t, s, size);
    if base == 0 {
        return give(STATUS_NO_MEMORY);
    }
    assert(process::page_up(size as int) <= u64::MAX);
    let rest: u64 = size % 4096;
    let rounded: u64 = if rest == 0 { size } else { size - rest + 4096 };
    assert(rounded == process::page_up(size as int));
    if !t.store64(base_pp, 0, base) {
        return Outcome::Fault;
    }
    if !t.store64(size_pp, 0, rounded) {
        return Outcome::Fault;
    }
    give(STATUS_SUCCESS)
}

/// The `PROCESS_BASIC_INFORMATION` block.
pub open spec fn basic_info(peb: u64, pid: u64) -> Seq<u8> {
    bytes::bytes64(0) + bytes::bytes64(peb) + bytes::bytes64(1) + bytes::bytes64(8)
        + bytes::bytes64(pid) + bytes::bytes64(0)
}

/// The PEB's address; 0 for a thread without a TEB.
pub open spec fn peb_of(c: Caller, t: Tv) -> Option<u64> {
    if c.gsbase == 0 {
        Some(0)
    } else {
        process::word64(t.space.mem, c.gsbase + 0x60)
    }
}

/// `NtQueryInformationProcess`: only the basic information.
pub open spec fn nt_query_process(c: Caller, t: Tv, s: Sv) -> Step {
    match stack(c, t, 0) {
        None => None,
        Some(ret_len) => if c.frame.rdx as u32 != 0 {
            gives(c, t, s, STATUS_INVALID_INFO_CLASS)
        } else if c.frame.r9 < 0x30 {
            gives(c, t, s, STATUS_INFO_LENGTH_MISMATCH)
        } else {
            match peb_of(c, t) {
                None => None,
                Some(peb) => match task::poked(t, c.frame.r8 as int, basic_info(peb, t.pid)) {
                    None => None,
                    Some(t2) => puts32(c, t2, s, ret_len, 0x30, STATUS_SUCCESS),
                },
            }
        },
    }
}

fn do_query_process(c: &Caller, t: &mut Task, s: &Sys) -> (r: Outcome)
    requires
        old(t).wf(),
    ensures
        final(t).wf(),
        final(t).pml4() == old(t).pml4(),
        sys::meets(nt_query_process(*c, old(t)@, s@), *c, final(t)@, s@, r),
{
    let ret_len: u64 = match stack_arg(c, t, 0) {
        Some(v) => v,
        None => { return Outcome::Fault; },
    };
    if c.frame.rdx as u32 != 0 {
        return give(STATUS_INVALID_INFO_CLASS);
    }
    if c.frame.r9 < 0x30 {
        return give(STATUS_INFO_LENGTH_MISMATCH);
    }
    let peb: u64 = if c.gsbase == 0 {
        0
    } else {
        match t.load64(c.gsbase, 0x60) {
            Some(v) => v,
            None => { return Outcome::Fault; },
        }
    };
    let pid: u64 = t.pid();
    let mut b = crate::bytes::to_bytes64(0);
    let w = crate::bytes::to_bytes64(peb);
    crate::bytes::extend(&mut b, w.as_slice());
    let w = crate::bytes::to_bytes64(1);
    crate::bytes::extend(&mut b, w.as_slice());
    let w = crate::bytes::to_bytes64(8);
    crate::bytes::extend(&mut b, w.as_slice());
    let w = crate::bytes::to_bytes64(pid);
    crate::bytes::extend(&mut b, w.as_slice());
    let w = crate::bytes::to_bytes64(0);
    crate::bytes::extend(&mut b, w.as_slice());
    if !t.store(c.frame.r8, 0, b.as_slice()) {
        return Outcome::Fault;
    }
    proof {
        let w = puts32(*c, t@, s@, ret_len, 0x30, STATUS_SUCCESS);
    }
    put_opt32(t, ret_len, 0x30, STATUS_SUCCESS)
}

/// `NtQueryVirtualMemory`: one committed private page, readable, writable and
/// executable.
pub open spec fn nt_query_memory(c: Caller, t: Tv, s: Sv) -> Step {
    let page = (c.frame.rdx - c.frame.rdx % 4096) as u64;
    match (stack(c, t, 0), stack(c, t, 1)) {
        (Some(len), Some(ret_len)) => if c.frame.r8 as u32 != 0 {
            gives(c, t, s, STATUS_INVALID_INFO_CLASS)
        } else if len < 0x30 {
            gives(c, t, s, STATUS_INFO_LENGTH_MISMATCH)
        } else {
            match task::poked(
                t,
                c.frame.r9 as int,
                bytes::bytes64(page) + bytes::bytes64(page) + bytes::bytes32(0x40),
            ) {
                None => None,
                Some(t2) => match task::poked(
                    t2,
                    c.frame.r9 + 24,
                    bytes::bytes64(0x1000) + bytes::bytes32(0x1000) + bytes::bytes32(0x40)
                        + bytes::bytes32(0x2_0000),
                ) {
                    None => None,
                    Some(t3) => puts64(c, t3, s, ret_len, 0x30, STATUS_SUCCESS),
                },
            }
        },
        _ => None,
    }
}

fn do_query_memory(c: &Caller, t: &mut Task, s: &Sys) -> (r: Outcome)
    requires
        old(t).wf(),
    ensures
        final(t).wf(),
        final(t).pml4() == old(t).pml4(),
        sys::meets(nt_query_memory(*c, old(t)@, s@), *c, final(t)@, s@, r),
{
    let (len, ret_len) = match (stack_arg(c, t, 0), stack_arg(c, t, 1)) {
        (Some(a), Some(b)) => (a, b),
        _ => { return Outcome::Fault; },
    };
    if c.frame.r8 as u32 != 0 {
        return give(STATUS_INVALID_INFO_CLASS);
    }
    if len < 0x30 {
        return give(STATUS_INFO_LENGTH_MISMATCH);
    }
    let page: u64 = c.frame.rdx - c.frame.rdx % 4096;
    let mut b = crate::bytes::to_bytes64(page);
    let w = crate::bytes::to_bytes64(page);
    crate::bytes::extend(&mut b, w.as_slice());
    let w = crate::bytes::to_bytes32(0x40);
    crate::bytes::extend(&mut b, w.as_slice());
    if !t.store(c.frame.r9, 0, b.as_slice()) {
        return Outcome::Fault;
    }
    let mut b = crate::bytes::to_bytes64(0x1000);
    let w = crate::bytes::to_bytes32(0x1000);
    crate::bytes::extend(&mut b, w.as_slice());
    let w = crate::bytes::to_bytes32(0x40);
    crate::bytes::extend(&mut b, w.as_slice());
    let w = crate::bytes::to_bytes32(0x2_0000);
    crate::bytes::extend(&mut b, w.as_slice());
    if !t.store(c.frame.r9, 24, b.as_slice()) {
        return Outcome::Fault;
    }
    proof {
        let w = puts64(*c, t@, s@, ret_len, 0x30, STATUS_SUCCESS);
    }
    put_opt64(t, ret_len, 0x30, STATUS_SUCCESS)
}

// --- events ---

/// `NtCreateEvent(*handle, .., type, initial)`.
pub open spec fn nt_create_event(c: Caller, t: Tv, s: Sv) -> Step {
    match stack(c, t, 0) {
        None => None,
        Some(initial) => {
            let e = Ev {
                signaled: initial % 256 != 0,
                mode: if c.frame.r9 == 1 {
                    EventMode::Auto
                } else {
                    EventMode::Manual
                },
                waiters: Seq::empty(),
            };
            let (fds, h) = task::fd_put(
                t.fds,
                Fd { obj: Obj::Event(s.events.len() as int), cloexec: false },
            );
            if h < 0 {
                gives(c, t, s, STATUS_NO_MEMORY)
            } else {
                match task::poked(
                    Tv { fds, ..t },
                    c.frame.r10 as int,
                    bytes::bytes64(h as u64),
                ) {
                    None => None,
                    Some(t2) => gives(
                        c,
                        t2,
                        Sv { events: s.events.push(e), ..s },
                        STATUS_SUCCESS,
                    ),
                }
            }
        },
    }
}

fn do_create_event(c: &Caller, t: &mut Task, s: &mut Sys) -> (r: Outcome)
    requires
        old(t).wf(),
        old(s).wf(),
    ensures
        final(t).wf(),
        final(s).wf(),
        final(t).pml4() == old(t).pml4(),
        sys::meets(nt_create_event(*c, old(t)@, old(s)@), *c, final(t)@, final(s)@, r),
{
    let initial: u64 = match stack_arg(c, t, 0) {
        Some(v) => v,
        None => { return Outcome::Fault; },
    };
    let mode = if c.frame.r9 == 1 { EventMode::Auto } else { EventMode::Manual };
    let mut e = Event::with_mode(mode);
    if initial % 256 != 0 {
        let _none = e.signal();
    }
    let h: i32 = t.handle_alloc_event(s.events.len());
    if h < 0 {
        assert(t@ =~= old(t)@);
        return give(STATUS_NO_MEMORY);
    }
    if !t.store64(c.frame.r10, 0, h as u64) {
        return Outcome::Fault;
    }
    let ghost events0 = s.events@;
    s.events.push(e);
    assert(sys::event_views(s.events@) =~= sys::event_views(events0).push(e@));
    give(STATUS_SUCCESS)
}

/// How many tries a relative timeout is worth.
pub open spec fn spins(timeout: i64) -> u64 {
    let n = (-(timeout as int)) / 50;
    if n < 20_000 {
        20_000
    } else if n > 4_000_000 {
        4_000_000
    } else {
        n as u64
    }
}

/// `NtWaitForSingleObject(handle, .., *timeout)`: no timeout blocks, zero or an
/// absolute one looks once, a relative one tries for a while.
pub open spec fn nt_wait(c: Caller, t: Tv, s: Sv) -> Step {
    match sys::event_of(t, s, c.frame.r10 as i32) {
        None => gives(c, t, s, STATUS_INVALID_HANDLE),
        Some(i) => if c.frame.r8 == 0 {
            let (e, blocked) = wait::awaited(s.events[i], c.tid);
            let s2 = Sv { events: s.events.update(i, e), ..s };
            if blocked {
                Some((c, t, s2, Outcome::WaitEvent(i as usize)))
            } else {
                gives(c, t, s2, STATUS_SUCCESS)
            }
        } else {
            match process::word64(t.space.mem, c.frame.r8 as int) {
                None => None,
                Some(v) => if v as i64 >= 0 {
                    let (e, ok) = wait::taken(s.events[i]);
                    gives(
                        c,
                        t,
                        Sv { events: s.events.update(i, e), ..s },
                        if ok {
                            STATUS_SUCCESS
                        } else {
                            STATUS_TIMEOUT
                        },
                    )
                } else {
                    Some(
                        (
                            c,
                            t,
                            s,
                            Outcome::PollEvent { event: i as usize, spins: spins(v as i64) },
                        ),
                    )
                },
            }
        },
    }
}

fn count_spins(timeout: i64) -> (r: u64)
    requires
        timeout < 0,
    ensures
        r == spins(timeout),
{
    if timeout == i64::MIN {
        return 4_000_000;
    }
    let n: i64 = (-timeout) / 50;
    if n < 20_000 {
        20_000
    } else if n > 4_000_000 {
        4_000_000
    } else {
        n as u64
    }
}

fn do_wait(c: &Caller, t: &Task, s: &mut Sys) -> (r: Outcome)
    requires
        t.wf(),
        old(s).wf(),
    ensures
        final(s).wf(),
        sys::meets(nt_wait(*c, t@, old(s)@), *c, t@, final(s)@, r),
{
    let i: usize = match crate::sys::find_event(t, s, c.frame.r10 as i32) {
        Some(i) => i,
        None => { return give(STATUS_INVALID_HANDLE); },
    };
    let ghost events0 = s.events@;
    if c.frame.r8 == 0 {
        let blocked: bool = s.events[i].wait(c.tid);
        assert(sys::event_views(s.events@) =~= sys::event_views(events0).update(
            i as int,
            s.events@[i as int]@,
        ));
        return if blocked { Outcome::WaitEvent(i) } else { give(STATUS_SUCCESS) };
    }
    let v: u64 = match t.load64(c.frame.r8, 0) {
        Some(v) => v,
        None => { return Outcome::Fault; },
    };
    let timeout: i64 = v as i64;
    if timeout >= 0 {
        let ok: bool = s.events[i].try_take();
        assert(sys::event_views(s.events@) =~= sys::event_views(events0).update(
            i as int,
            s.events@[i as int]@,
        ));
        return give(if ok { STATUS_SUCCESS } else { STATUS_TIMEOUT });
    }
    Outcome::PollEvent { event: i, spins: count_spins(timeout) }
}

/// One try of a timed wait: whether the event was taken.
pub fn poll_event(s: &mut Sys, event: usize) -> (r: bool)
    requires
        old(s).wf(),
        event < old(s).events@.len(),
    ensures
        final(s).wf(),
        r == wait::taken(old(s)@.events[event as int]).1,
        final(s)@ == (Sv {
            events: old(s)@.events.update(
                event as int,
                wait::taken(old(s)@.events[event as int]).0,
            ),
            ..old(s)@
        }),
{
    let ghost events0 = s.events@;
    let r: bool = s.events[event].try_take();
    assert(sys::event_views(s.events@) =~= sys::event_views(events0).update(
        event as int,
        s.events@[event as int]@,
    ));
    r
}

/// `NtSetEvent` and `NtResetEvent(handle, *previous)`.
pub open spec fn nt_change_event(c: Caller, t: Tv, s: Sv, set: bool) -> Step {
    match sys::event_of(t, s, c.frame.r10 as i32) {
        None => gives(c, t, s, STATUS_INVALID_HANDLE),
        Some(i) => {
            let e = s.events[i];
            let (e2, woken) = if set {
                wait::signalled(e)
            } else {
                (Ev { signaled: false, ..e }, Seq::empty())
            };
            puts32(
                c,
                t,
                Sv { events: s.events.update(i, e2), woken: s.woken + woken, ..s },
                c.frame.rdx,
                if e.signaled {
                    1
                } else {
                    0
                },
                STATUS_SUCCESS,
            )
        },
    }
}

pub(crate) fn extend_ids(v: &mut Vec<u64>, more: &Vec<u64>)
    ensures
        final(v)@ == old(v)@ + more@,
{
    let mut i: usize = 0;
    while i < more.len()
        invariant
            i <= more@.len(),
            v@ =~= old(v)@ + more@.take(i as int),
        decreases more@.len() - i,
    {
        v.push(more[i]);
        i = i + 1;
    }
    assert(more@.take(i as int) =~= more@);
}

fn do_change_event(c: &Caller, t: &mut Task, s: &mut Sys, set: bool) -> (r: Outcome)
    requires
        old(t).wf(),
        old(s).wf(),
    ensures
        final(t).wf(),
        final(s).wf(),
        final(t).pml4() == old(t).pml4(),
        sys::meets(nt_change_event(*c, old(t)@, old(s)@, set), *c, final(t)@, final(s)@, r),
{
    let i: usize = match crate::sys::find_event(t, s, c.frame.r10 as i32) {
        Some(i) => i,
        None => { return give(STATUS_INVALID_HANDLE); },
    };
    let ghost events0 = s.events@;
    assert(sys::event_views(events0)[i as int] == events0[i as int]@);
    let prev: u32 = if s.events[i].is_signaled() { 1 } else { 0 };
    if set {
        let woken = s.events[i].signal();
        extend_ids(&mut s.woken, &woken);
    } else {
        s.events[i].reset();
        assert(s.woken@ =~= old(s).woken@ + Seq::<u64>::empty());
    }
    assert(sys::event_views(s.events@) =~= sys::event_views(events0).update(
        i as int,
        s.events@[i as int]@,
    ));
    proof {
        let w = puts32(*c, t@, s@, c.frame.rdx, prev, STATUS_SUCCESS);
    }
    put_opt32(t, c.frame.rdx, prev, STATUS_SUCCESS)
}

// --- contexts and APCs ---

/// The registers a `CONTEXT` at `at` says to go on with, under the given
/// selectors.
pub open spec fn context_read(m: nt_names::Mem, at: u64, cs: u64, ss: u64) -> Option<ExcFrame> {
    let b = process::peek(m, at + 0x78, 0x88);
    match process::word32(m, at + 0x44) {
        None => None,
        Some(flags) => if !process::mapped(m, at + 0x78, 0x88) {
            None
        } else {
            Some(
                ExcFrame {
                    rax: bytes::le64(b, 0x00),
                    rcx: bytes::le64(b, 0x08),
                    rdx: bytes::le64(b, 0x10),
                    rbx: bytes::le64(b, 0x18),
                    rsp: bytes::le64(b, 0x20),
                    rbp: bytes::le64(b, 0x28),
                    rsi: bytes::le64(b, 0x30),
                    rdi: bytes::le64(b, 0x38),
                    r8: bytes::le64(b, 0x40),
                    r9: bytes::le64(b, 0x48),
                    r10: bytes::le64(b, 0x50),
                    r11: bytes::le64(b, 0x58),
                    r12: bytes::le64(b, 0x60),
                    r13: bytes::le64(b, 0x68),
                    r14: bytes::le64(b, 0x70),
                    r15: bytes::le64(b, 0x78),
                    rip: bytes::le64(b, 0x80),
                    rflags: flags as u64 | 2,
                    cs,
                    ss,
                },
            )
        },
    }
}

/// A captured context without its registers.
spec fn context_start(r: Regs) -> Seq<u8> {
    let b = crate::bytes::zeros(0x4D0);
    let b = crate::apc::w32(b, 0x30, crate::apc::CONTEXT_FULL);
    let b = crate::apc::w16(b, 0x38, (r.cs % 0x1_0000) as u16);
    crate::apc::w16(b, 0x42, (r.ss % 0x1_0000) as u16)
}

spec fn context_head(r: Regs) -> Seq<u8> {
    crate::apc::w32(context_start(r), 0x44, (r.rflags % 0x1_0000_0000) as u32)
}

/// The registers of a captured context, in the order it has them.
spec fn context_regs(r: Regs) -> Seq<u64> {
    seq![
        r.rax,
        r.rcx,
        r.rdx,
        r.rbx,
        r.rsp,
        r.rbp,
        r.rsi,
        r.rdi,
        r.r8,
        r.r9,
        r.r10,
        r.r11,
        r.r12,
        r.r13,
        r.r14,
        r.r15,
        r.rip,
    ]
}

#[verifier::rlimit(50)]
proof fn lemma_context_shape(r: Regs)
    ensures
        crate::apc::context(r) == words_put(context_head(r), 0x78, context_regs(r), 17),
{
    reveal(crate::apc::context);
    let b = context_head(r);
    let v = context_regs(r);
    assert(words_put(b, 0x78, v, 0) == b);
    let w1 = crate::apc::w64(b, 0x78, r.rax);
    assert(words_put(b, 0x78, v, 1) == w1);
    let w2 = crate::apc::w64(w1, 0x80, r.rcx);
    assert(words_put(b, 0x78, v, 2) == w2);
    let w3 = crate::apc::w64(w2, 0x88, r.rdx);
    assert(words_put(b, 0x78, v, 3) == w3);
    let w4 = crate::apc::w64(w3, 0x90, r.rbx);
    assert(words_put(b, 0x78, v, 4) == w4);
    let w5 = crate::apc::w64(w4, 0x98, r.rsp);
    assert(words_put(b, 0x78, v, 5) == w5);
    let w6 = crate::apc::w64(w5, 0xA0, r.rbp);
    assert(words_put(b, 0x78, v, 6) == w6);
    let w7 = crate::apc::w64(w6, 0xA8, r.rsi);
    assert(words_put(b, 0x78, v, 7) == w7);
    let w8 = crate::apc::w64(w7, 0xB0, r.rdi);
    assert(words_put(b, 0x78, v, 8) == w8);
    let w9 = crate::apc::w64(w8, 0xB8, r.r8);
    assert(words_put(b, 0x78, v, 9) == w9);
    let w10 = crate::apc::w64(w9, 0xC0, r.r9);
    assert(words_put(b, 0x78, v, 10) == w10);
    let w11 = crate::apc::w64(w10, 0xC8, r.r10);
    assert(words_put(b, 0x78, v, 11) == w11);
    let w12 = crate::apc::w64(w11, 0xD0, r.r11);
    assert(words_put(b, 0x78, v, 12) == w12);
    let w13 = crate::apc::w64(w12, 0xD8, r.r12);
    assert(words_put(b, 0x78, v, 13) == w13);
    let w14 = crate::apc::w64(w13, 0xE0, r.r13);
    assert(words_put(b, 0x78, v, 14) == w14);
    let w15 = crate::apc::w64(w14, 0xE8, r.r14);
    assert(words_put(b, 0x78, v, 15) == w15);
    let w16 = crate::apc::w64(w15, 0xF0, r.r15);
    assert(words_put(b, 0x78, v, 16) == w16);
    let w17 = crate::apc::w64(w16, 0xF8, r.rip);
    assert(words_put(b, 0x78, v, 17) == w17);
}

/// The parameters in a context's home area leave what is behind it alone.
proof fn lemma_home(c: Seq<u8>, e: crate::apc::ApcEntry)
    requires
        c.len() == 0x4D0,
    ensures
        ({
            let b = crate::apc::w64(c, 0x00, e.arg1);
            let b = crate::apc::w64(b, 0x08, e.arg2);
            let b = crate::apc::w64(b, 0x10, e.arg3);
            let d = crate::apc::w64(b, 0x18, e.routine);
            &&& d.len() == c.len()
            &&& bytes::le32(d, 0x44) == bytes::le32(c, 0x44)
            &&& forall|k: int|
                0x20 <= k && k + 8 <= c.len() ==> #[trigger] bytes::le64(d, k) == bytes::le64(c, k)
        }),
{
    bytes::lemma_store64(c, 0x00, e.arg1);
    let d1 = crate::apc::w64(c, 0x00, e.arg1);
    bytes::lemma_store64(d1, 0x08, e.arg2);
    let d2 = crate::apc::w64(d1, 0x08, e.arg2);
    bytes::lemma_store64(d2, 0x10, e.arg3);
    let d3 = crate::apc::w64(d2, 0x10, e.arg3);
    bytes::lemma_store64(d3, 0x18, e.routine);
}

/// The words of `b` are those of a context that captures `r`.
pub open spec fn captures(b: Seq<u8>, r: Regs) -> bool {
    &&& b.len() == 0x4D0
    &&& bytes::le32(b, 0x44) == (r.rflags % 0x1_0000_0000) as u32
    &&& bytes::le64(b, 0x78) == r.rax
    &&& bytes::le64(b, 0x80) == r.rcx
    &&& bytes::le64(b, 0x88) == r.rdx
    &&& bytes::le64(b, 0x90) == r.rbx
    &&& bytes::le64(b, 0x98) == r.rsp
    &&& bytes::le64(b, 0xA0) == r.rbp
    &&& bytes::le64(b, 0xA8) == r.rsi
    &&& bytes::le64(b, 0xB0) == r.rdi
    &&& bytes::le64(b, 0xB8) == r.r8
    &&& bytes::le64(b, 0xC0) == r.r9
    &&& bytes::le64(b, 0xC8) == r.r10
    &&& bytes::le64(b, 0xD0) == r.r11
    &&& bytes::le64(b, 0xD8) == r.r12
    &&& bytes::le64(b, 0xE0) == r.r13
    &&& bytes::le64(b, 0xE8) == r.r14
    &&& bytes::le64(b, 0xF0) == r.r15
    &&& bytes::le64(b, 0xF8) == r.rip
}

/// A context captures its registers, with an APC's parameters in it and
/// without.
proof fn lemma_context_words(r: Regs, e: crate::apc::ApcEntry)
    ensures
        captures(crate::apc::context(r), r),
        captures(crate::apc::apc_context(r, e), r),
{
    let b = context_head(r);
    let v = context_regs(r);
    lemma_context_shape(r);
    lemma_words(b, 0x78, v, 17);
    let c = crate::apc::context(r);
    bytes::lemma_le32_of_splice(context_start(r), 0x44, (r.rflags % 0x1_0000_0000) as u32);
    lemma_home(c, e);
    let d = crate::apc::apc_context(r, e);
    assert forall|i: int| 0 <= i < 17 implies #[trigger] bytes::le64(d, 0x78 + 8 * i) == v[i] by {
        assert(bytes::le64(c, 0x78 + 8 * i) == v[i]);
    }
    assert(bytes::le64(d, 0x78int + 8 * 0) == r.rax);
    assert(bytes::le64(d, 0x78int + 8 * 1) == r.rcx);
    assert(bytes::le64(d, 0x78int + 8 * 2) == r.rdx);
    assert(bytes::le64(d, 0x78int + 8 * 3) == r.rbx);
    assert(bytes::le64(d, 0x78int + 8 * 4) == r.rsp);
    assert(bytes::le64(d, 0x78int + 8 * 5) == r.rbp);
    assert(bytes::le64(d, 0x78int + 8 * 6) == r.rsi);
    assert(bytes::le64(d, 0x78int + 8 * 7) == r.rdi);
    assert(bytes::le64(d, 0x78int + 8 * 8) == r.r8);
    assert(bytes::le64(d, 0x78int + 8 * 9) == r.r9);
    assert(bytes::le64(d, 0x78int + 8 * 10) == r.r10);
    assert(bytes::le64(d, 0x78int + 8 * 11) == r.r11);
    assert(bytes::le64(d, 0x78int + 8 * 12) == r.r12);
    assert(bytes::le64(d, 0x78int + 8 * 13) == r.r13);
    assert(bytes::le64(d, 0x78int + 8 * 14) == r.r14);
    assert(bytes::le64(d, 0x78int + 8 * 15) == r.r15);
    assert(bytes::le64(d, 0x78int + 8 * 16) == r.rip);
}

/// A `CONTEXT` has every register at its place, with an APC's parameters in it
/// and without.
pub proof fn law_context_has_every_register_at_its_place(r: Regs, e: crate::apc::ApcEntry)
    ensures
        captures(crate::apc::context(r), r),
        captures(crate::apc::apc_context(r, e), r),
{
    lemma_context_words(r, e);
}

/// The first `n` words of `v` stored one after the other from `at` on.
spec fn words_put(b: Seq<u8>, at: int, v: Seq<u64>, n: nat) -> Seq<u8>
    decreases n,
{
    if n == 0 {
        b
    } else {
        crate::apc::w64(words_put(b, at, v, (n - 1) as nat), at + 8 * (n - 1), v[n - 1])
    }
}

proof fn lemma_words(b: Seq<u8>, at: int, v: Seq<u64>, n: nat)
    requires
        0 <= at,
        at + 8 * n <= b.len(),
        n <= v.len(),
    ensures
        words_put(b, at, v, n).len() == b.len(),
        forall|i: int| 0 <= i < n ==> #[trigger] bytes::le64(words_put(b, at, v, n), at + 8 * i) == v[i],
        forall|k: int|
            0 <= k && k + 4 <= at ==> #[trigger] bytes::le32(words_put(b, at, v, n), k)
                == bytes::le32(b, k),
    decreases n,
{
    if n > 0 {
        let m = (n - 1) as nat;
        lemma_words(b, at, v, m);
        let c = words_put(b, at, v, m);
        bytes::lemma_store64(c, at + 8 * m, v[m as int]);
        assert forall|i: int| 0 <= i < n implies #[trigger] bytes::le64(
            words_put(b, at, v, n),
            at + 8 * i,
        ) == v[i] by {
            if i < m {
                assert(bytes::le64(c, at + 8 * i) == v[i]);
            }
        }
    }
}

/// The registers `r` as a thread goes on with them: of its flags bit 1 is
/// always set and the upper half never.
pub open spec fn resumed(r: Regs, cs: u64, ss: u64) -> ExcFrame {
    ExcFrame {
        rax: r.rax,
        rcx: r.rcx,
        rdx: r.rdx,
        rbx: r.rbx,
        rsp: r.rsp,
        rbp: r.rbp,
        rsi: r.rsi,
        rdi: r.rdi,
        r8: r.r8,
        r9: r.r9,
        r10: r.r10,
        r11: r.r11,
        r12: r.r12,
        r13: r.r13,
        r14: r.r14,
        r15: r.r15,
        rip: r.rip,
        rflags: ((r.rflags % 0x1_0000_0000) as u32) as u64 | 2,
        cs,
        ss,
    }
}

proof fn lemma_captured_reads_back(
    m: nt_names::Mem,
    at: u64,
    b: Seq<u8>,
    r: Regs,
    cs: u64,
    ss: u64,
)
    requires
        process::mapped(m, at as int, 0x4D0),
        captures(b, r),
    ensures
        context_read(process::poke(m, at as int, b), at, cs, ss) == Some(resumed(r, cs, ss)),
{
    process::law_stored_bytes_read_back(m, at as int, b);
    let m2 = process::poke(m, at as int, b);
    assert forall|i: int| at <= i < at + 0x4D0 implies #[trigger] m2.contains_key(i) && m2[i] == b[i
        - at] by {
        assert(m.contains_key(i));
    }
    let f = process::peek(m2, at + 0x44, 4);
    assert(f[0] == b[0x44] && f[1] == b[0x45] && f[2] == b[0x46] && f[3] == b[0x47]);
    let p = process::peek(m2, at + 0x78, 0x88);
    assert(p =~= b.subrange(0x78, 0x100));
    assert forall|k: int| 0 <= k && k + 8 <= 0x88 implies #[trigger] bytes::le64(p, k) == bytes::le64(
        b,
        0x78 + k,
    ) by {}
}

/// `NtContinue` on the context an APC was delivered with resumes the thread
/// as it was.
pub proof fn law_continue_undoes_delivery(
    m: nt_names::Mem,
    r: Regs,
    e: crate::apc::ApcEntry,
    at: u64,
    cs: u64,
    ss: u64,
)
    requires
        process::mapped(m, at as int, 0x4D0),
    ensures
        context_read(process::poke(m, at as int, crate::apc::apc_context(r, e)), at, cs, ss) == Some(
            resumed(r, cs, ss),
        ),
{
    lemma_context_words(r, e);
    lemma_captured_reads_back(m, at, crate::apc::apc_context(r, e), r, cs, ss);
}

/// `NtContinue` on the context an exception was delivered with goes back to
/// where the fault was.
pub proof fn law_continue_undoes_a_fault(
    m: nt_names::Mem,
    f: ExcFrame,
    code: u32,
    pf: Option<seh::PageFault>,
    cs: u64,
    ss: u64,
)
    requires
        seh::deliverable(m, f.rsp),
    ensures
        ({
            let at = apc::context_at(f.rsp);
            let put = process::poke(
                process::poke(m, seh::record_at(f.rsp), seh::record(code, f.rip, pf)),
                at,
                apc::context(seh::regs_of(f)),
            );
            context_read(put, at as u64, cs, ss) == Some(resumed(seh::regs_of(f), cs, ss))
        }),
{
    let r = seh::regs_of(f);
    let at = apc::context_at(f.rsp);
    let m1 = process::poke(m, seh::record_at(f.rsp), seh::record(code, f.rip, pf));
    lemma_context_words(r, crate::apc::ApcEntry { routine: 0, arg1: 0, arg2: 0, arg3: 0 });
    assert forall|i: int| at <= i < at + 0x4D0 implies #[trigger] m1.contains_key(i) by {
        assert(m.contains_key(i));
    }
    lemma_captured_reads_back(m1, at as u64, apc::context(r), r, cs, ss);
}

fn read_context(t: &Task, at: u64, cs: u64, ss: u64) -> (r: Option<ExcFrame>)
    requires
        t.wf(),
    ensures
        r == context_read(t@.space.mem, at, cs, ss),
{
    let flags: u32 = match t.load32(at, 0x44) {
        Some(v) => v,
        None => { return None; },
    };
    let b = match t.load_at(at, 0x78, 0x88) {
        Some(b) => b,
        None => { return None; },
    };
    let p = b.as_slice();
    Some(
        ExcFrame {
            rax: crate::bytes::load64(p, 0x00),
            rcx: crate::bytes::load64(p, 0x08),
            rdx: crate::bytes::load64(p, 0x10),
            rbx: crate::bytes::load64(p, 0x18),
            rsp: crate::bytes::load64(p, 0x20),
            rbp: crate::bytes::load64(p, 0x28),
            rsi: crate::bytes::load64(p, 0x30),
            rdi: crate::bytes::load64(p, 0x38),
            r8: crate::bytes::load64(p, 0x40),
            r9: crate::bytes::load64(p, 0x48),
            r10: crate::bytes::load64(p, 0x50),
            r11: crate::bytes::load64(p, 0x58),
            r12: crate::bytes::load64(p, 0x60),
            r13: crate::bytes::load64(p, 0x68),
            r14: crate::bytes::load64(p, 0x70),
            r15: crate::bytes::load64(p, 0x78),
            rip: crate::bytes::load64(p, 0x80),
            rflags: flags as u64 | 2,
            cs,
            ss,
        },
    )
}

/// The oldest queued APC taken and staged on top of `r`: the task, and where
/// to go on where there was one. Nothing where the stack is not mapped.
pub open spec fn apc_staged(t: Tv, r: Regs) -> Option<(Tv, Option<(u64, u64)>)> {
    if t.apcs.len() == 0 {
        Some((t, None))
    } else {
        let e = t.apcs[0];
        let at = apc::context_at(r.rsp);
        if r.rsp >= 0x550 && process::mapped(t.space.mem, at, 0x4D0) {
            Some(
                (
                    Tv {
                        apcs: t.apcs.skip(1),
                        space: Space {
                            mem: process::poke(t.space.mem, at, apc::apc_context(r, e)),
                            ..t.space
                        },
                        ..t
                    },
                    Some((at as u64, apc::PE_KIUSERAPC_ADDR)),
                ),
            )
        } else {
            None
        }
    }
}

/// Take and stage the next queued APC, if there is one.
pub fn take_and_stage(t: &mut Task, r: &Regs) -> (out: Option<Option<(u64, u64)>>)
    requires
        old(t).wf(),
    ensures
        final(t).wf(),
        final(t).pml4() == old(t).pml4(),
        match apc_staged(old(t)@, *r) {
            Some((t2, go)) => out == Some(go) && final(t)@ == t2,
            None => out is None,
        },
{
    match t.apc_take() {
        None => Some(None),
        Some(e) => match t.stage_apc(r, &e) {
            Some(go) => Some(Some(go)),
            None => None,
        },
    }
}

/// `NtContinue(*context, test_alert)`.
pub open spec fn nt_continue(c: Caller, t: Tv, s: Sv) -> Step {
    match context_read(t.space.mem, c.frame.r10, c.cs, c.ss) {
        None => None,
        Some(f) => if c.frame.rdx == 0 {
            Some((c, t, s, Outcome::Resume(f)))
        } else {
            match apc_staged(t, seh::regs_of(f)) {
                None => None,
                Some((t2, None)) => Some((c, t2, s, Outcome::Resume(f))),
                Some((t2, Some((rsp, rip)))) => Some(
                    (c, t2, s, Outcome::Resume(ExcFrame { rsp, rip, ..f })),
                ),
            }
        },
    }
}

fn do_continue(c: &Caller, t: &mut Task, s: &Sys) -> (r: Outcome)
    requires
        old(t).wf(),
    ensures
        final(t).wf(),
        final(t).pml4() == old(t).pml4(),
        sys::meets(nt_continue(*c, old(t)@, s@), *c, final(t)@, s@, r),
{
    let f = match read_context(t, c.frame.r10, c.cs, c.ss) {
        Some(f) => f,
        None => { return Outcome::Fault; },
    };
    if c.frame.rdx == 0 {
        return Outcome::Resume(f);
    }
    let regs = crate::seh::exc_frame_regs(&f);
    match take_and_stage(t, &regs) {
        None => Outcome::Fault,
        Some(None) => Outcome::Resume(f),
        Some(Some((rsp, rip))) => Outcome::Resume(ExcFrame { rsp, rip, ..f }),
    }
}

/// `NtQueueApcThread(thread, routine, arg1, arg2, arg3)`: only the calling
/// thread is a target.
pub open spec fn nt_queue_apc(c: Caller, t: Tv, s: Sv) -> Step {
    let f = c.frame;
    if f.r10 != 0xFFFF_FFFF_FFFF_FFFE && f.r10 != 0xFFFF_FFFF_FFFF_FFFF {
        gives(c, t, s, STATUS_INVALID_HANDLE)
    } else if f.rdx == 0 {
        gives(c, t, s, STATUS_INVALID_PARAMETER)
    } else {
        match stack(c, t, 0) {
            None => None,
            Some(arg3) => gives(
                c,
                Tv {
                    apcs: t.apcs.push(
                        ApcEntry { routine: f.rdx, arg1: f.r8, arg2: f.r9, arg3 },
                    ),
                    ..t
                },
                s,
                STATUS_SUCCESS,
            ),
        }
    }
}

fn do_queue_apc(c: &Caller, t: &mut Task, s: &Sys) -> (r: Outcome)
    requires
        old(t).wf(),
    ensures
        final(t).wf(),
        final(t).pml4() == old(t).pml4(),
        sys::meets(nt_queue_apc(*c, old(t)@, s@), *c, final(t)@, s@, r),
{
    let f = c.frame;
    if f.r10 != 0xFFFF_FFFF_FFFF_FFFE && f.r10 != 0xFFFF_FFFF_FFFF_FFFF {
        return give(STATUS_INVALID_HANDLE);
    }
    if f.rdx == 0 {
        return give(STATUS_INVALID_PARAMETER);
    }
    match stack_arg(c, t, 0) {
        None => Outcome::Fault,
        Some(arg3) => {
            t.apc_queue(ApcEntry { routine: f.rdx, arg1: f.r8, arg2: f.r9, arg3 });
            give(STATUS_SUCCESS)
        },
    }
}

/// The registers a thread resumes with once an APC delivered by `NtTestAlert`
/// has run.
pub open spec fn alert_regs(c: Caller) -> Regs {
    let f = c.frame;
    Regs {
        rax: 0,
        rcx: 0,
        rdx: f.rdx,
        rbx: f.rbx,
        rsp: f.rsp,
        rbp: f.rbp,
        rsi: f.rsi,
        rdi: f.rdi,
        r8: f.r8,
        r9: f.r9,
        r10: f.r10,
        r11: f.r11,
        r12: f.r12,
        r13: f.r13,
        r14: f.r14,
        r15: f.r15,
        rip: f.rip,
        rflags: f.rflags,
        cs: c.cs,
        ss: c.ss,
    }
}

/// `NtTestAlert()`: a queued APC is delivered by sending the return through
/// the dispatcher.
pub open spec fn nt_test_alert(c: Caller, t: Tv, s: Sv) -> Step {
    match apc_staged(t, alert_regs(c)) {
        None => None,
        Some((t2, None)) => gives(c, t2, s, STATUS_SUCCESS),
        Some((t2, Some((rsp, rip)))) => gives(
            Caller { frame: UserFrame { rsp, rip, ..c.frame }, ..c },
            t2,
            s,
            STATUS_SUCCESS,
        ),
    }
}

fn do_test_alert(c: &mut Caller, t: &mut Task, s: &Sys) -> (r: Outcome)
    requires
        old(t).wf(),
    ensures
        final(t).wf(),
        final(t).pml4() == old(t).pml4(),
        sys::meets(nt_test_alert(*old(c), old(t)@, s@), *final(c), final(t)@, s@, r),
{
    let f = c.frame;
    let regs = Regs {
        rax: 0,
        rcx: 0,
        rdx: f.rdx,
        rbx: f.rbx,
        rsp: f.rsp,
        rbp: f.rbp,
        rsi: f.rsi,
        rdi: f.rdi,
        r8: f.r8,
        r9: f.r9,
        r10: f.r10,
        r11: f.r11,
        r12: f.r12,
        r13: f.r13,
        r14: f.r14,
        r15: f.r15,
        rip: f.rip,
        rflags: f.rflags,
        cs: c.cs,
        ss: c.ss,
    };
    match take_and_stage(t, &regs) {
        None => Outcome::Fault,
        Some(None) => give(STATUS_SUCCESS),
        Some(Some((rsp, rip))) => {
            c.frame = UserFrame { rsp, rip, ..f };
            give(STATUS_SUCCESS)
        },
    }
}

/// The vectored handler set to `handler`, and the call returns `v`.
pub open spec fn handler_set(c: Caller, t: Tv, s: Sv, handler: u64, v: i64) -> Step {
    match task::poked(t, seh::PE_EXC_ADDR as int, bytes::bytes64(handler)) {
        None => None,
        Some(t2) => sys::back(c, t2, s, v),
    }
}

fn set_handler(t: &mut Task, handler: u64, v: i64) -> (r: Outcome)
    requires
        old(t).wf(),
    ensures
        final(t).wf(),
        final(t).pml4() == old(t).pml4(),
        forall|c: Caller, s: Sv|
            sys::meets(#[trigger] handler_set(c, old(t)@, s, handler, v), c, final(t)@, s, r),
{
    if t.store64(crate::seh::PE_EXC_ADDR, 0, handler) {
        Outcome::Return(v)
    } else {
        Outcome::Fault
    }
}

// --- the registry ---

/// The registry path of an `OBJECT_ATTRIBUTES`: its name, behind the path of
/// the root key where it has one. Nothing inside where it names nothing.
pub open spec fn attr_path(t: Tv, oa: u64) -> Option<Option<Seq<char>>> {
    let m = t.space.mem;
    if oa == 0 {
        Some(None)
    } else {
        match (process::word64(m, oa + 0x08), process::word64(m, oa + 0x10)) {
            (Some(root), Some(us)) => match nt_names::unicode(m, us) {
                None => None,
                Some(name) => if root == 0 {
                    if name.len() == 0 {
                        Some(None)
                    } else {
                        Some(Some(name))
                    }
                } else {
                    match task::regkey_at(t.fds, (root as i32) as int) {
                        None => Some(None),
                        Some(base) => Some(Some(base.push('\\') + name)),
                    }
                },
            },
            _ => None,
        }
    }
}

fn oa_path(t: &Task, oa: u64) -> (r: Option<Option<Vec<char>>>)
    requires
        t.wf(),
    ensures
        match attr_path(t@, oa) {
            None => r is None,
            Some(None) => r matches Some(None),
            Some(Some(p)) => r matches Some(Some(v)) && v@ == p,
        },
{
    if oa == 0 {
        return Some(None);
    }
    let root: u64 = match t.load64(oa, 0x08) {
        Some(v) => v,
        None => { return None; },
    };
    let us: u64 = match t.load64(oa, 0x10) {
        Some(v) => v,
        None => { return None; },
    };
    let name = match crate::nt_names::unicode_string_ascii(t, us) {
        Some(n) => n,
        None => { return None; },
    };
    if root == 0 {
        return if name.len() == 0 { Some(None) } else { Some(Some(name)) };
    }
    match t.handle_regkey(root as i32) {
        None => Some(None),
        Some(base) => {
            let mut p = base;
            p.push('\\');
            crate::text::extend_chars(&mut p, name.as_slice());
            Some(Some(p))
        },
    }
}

/// A handle for the key at `path` stored at `at`: the task and the handle, or
/// why not.
pub open spec fn key_handle(t: Tv, path: Seq<char>, at: u64) -> Option<Result<Tv, u32>> {
    let canon = text::join(registry::comps(path), '\\');
    let (fds, h) = task::fd_put(t.fds, Fd { obj: Obj::RegKey(canon), cloexec: false });
    if h < 0 {
        Some(Err(STATUS_NO_MEMORY))
    } else {
        match task::poked(Tv { fds, ..t }, at as int, bytes::bytes64(h as u64)) {
            None => None,
            Some(t2) => Some(Ok(t2)),
        }
    }
}

fn make_key_handle(t: &mut Task, path: &str, at: u64) -> (r: Option<Result<(), u32>>)
    requires
        old(t).wf(),
    ensures
        final(t).wf(),
        final(t).pml4() == old(t).pml4(),
        match key_handle(old(t)@, path@, at) {
            None => r is None,
            Some(Err(e)) => r == Some(Err::<(), u32>(e)) && final(t)@ == old(t)@,
            Some(Ok(t2)) => r == Some(Ok::<(), u32>(())) && final(t)@ == t2,
        },
{
    let canon = crate::registry::canon(path);
    let chars = crate::text::chars_of(canon.as_str());
    let h: i32 = t.handle_alloc_regkey(chars);
    if h < 0 {
        assert(t@ =~= old(t)@);
        return Some(Err(STATUS_NO_MEMORY));
    }
    if t.store64(at, 0, h as u64) {
        Some(Ok(()))
    } else {
        None
    }
}

/// `NtCreateKey(*handle, .., *attributes, .., *disposition)`.
pub open spec fn nt_create_key(c: Caller, t: Tv, s: Sv) -> Step {
    match attr_path(t, c.frame.r8) {
        None => None,
        Some(None) => gives(c, t, s, STATUS_INVALID_PARAMETER),
        Some(Some(path)) => {
            let p = registry::comps(path);
            if p.len() == 0 {
                gives(c, t, s, STATUS_INVALID_PARAMETER)
            } else {
                let s2 = Sv { registry: registry::made(s.registry, p), ..s };
                match key_handle(t, path, c.frame.r10) {
                    None => None,
                    Some(Err(e)) => gives(c, t, s2, e),
                    Some(Ok(t2)) => match stack(c, t2, 2) {
                        None => None,
                        Some(disp) => puts32(
                            c,
                            t2,
                            s2,
                            disp,
                            if s.registry.contains_key(p) {
                                2
                            } else {
                                1
                            },
                            STATUS_SUCCESS,
                        ),
                    },
                }
            }
        },
    }
}

fn do_create_key(c: &Caller, t: &mut Task, s: &mut Sys) -> (r: Outcome)
    requires
        old(t).wf(),
        old(s).wf(),
    ensures
        final(t).wf(),
        final(s).wf(),
        final(t).pml4() == old(t).pml4(),
        sys::meets(nt_create_key(*c, old(t)@, old(s)@), *c, final(t)@, final(s)@, r),
{
    let chars = match oa_path(t, c.frame.r8) {
        None => { return Outcome::Fault; },
        Some(None) => { return give(STATUS_INVALID_PARAMETER); },
        Some(Some(p)) => p,
    };
    let path = crate::text::string_of(chars.as_slice());
    let existed: bool = s.registry.open(path.as_str());
    if !s.registry.create(path.as_str()) {
        return give(STATUS_INVALID_PARAMETER);
    }
    match make_key_handle(t, path.as_str(), c.frame.r10) {
        None => { return Outcome::Fault; },
        Some(Err(e)) => { return give(e); },
        Some(Ok(())) => {},
    }
    match stack_arg(c, t, 2) {
        None => Outcome::Fault,
        Some(disp) => {
            let v: u32 = if existed { 2 } else { 1 };
            proof {
                let w = puts32(*c, t@, s@, disp, v, STATUS_SUCCESS);
            }
            put_opt32(t, disp, v, STATUS_SUCCESS)
        },
    }
}

/// `NtOpenKey(*handle, .., *attributes)`.
pub open spec fn nt_open_key(c: Caller, t: Tv, s: Sv) -> Step {
    match attr_path(t, c.frame.r8) {
        None => None,
        Some(None) => gives(c, t, s, STATUS_INVALID_PARAMETER),
        Some(Some(path)) => if !s.registry.contains_key(registry::comps(path)) {
            gives(c, t, s, STATUS_OBJECT_NAME_NOT_FOUND)
        } else {
            match key_handle(t, path, c.frame.r10) {
                None => None,
                Some(Err(e)) => gives(c, t, s, e),
                Some(Ok(t2)) => gives(c, t2, s, STATUS_SUCCESS),
            }
        },
    }
}

fn do_open_key(c: &Caller, t: &mut Task, s: &Sys) -> (r: Outcome)
    requires
        old(t).wf(),
        s.wf(),
    ensures
        final(t).wf(),
        final(t).pml4() == old(t).pml4(),
        sys::meets(nt_open_key(*c, old(t)@, s@), *c, final(t)@, s@, r),
{
    let chars = match oa_path(t, c.frame.r8) {
        None => { return Outcome::Fault; },
        Some(None) => { return give(STATUS_INVALID_PARAMETER); },
        Some(Some(p)) => p,
    };
    let path = crate::text::string_of(chars.as_slice());
    if !s.registry.open(path.as_str()) {
        return give(STATUS_OBJECT_NAME_NOT_FOUND);
    }
    match make_key_handle(t, path.as_str(), c.frame.r10) {
        None => Outcome::Fault,
        Some(Err(e)) => give(e),
        Some(Ok(())) => give(STATUS_SUCCESS),
    }
}

/// `NtSetValueKey(handle, *name, .., type, *data, size)`.
pub open spec fn nt_set_value(c: Caller, t: Tv, s: Sv) -> Step {
    match task::regkey_at(t.fds, (c.frame.r10 as i32) as int) {
        None => gives(c, t, s, STATUS_INVALID_HANDLE),
        Some(path) => match (
            nt_names::unicode(t.space.mem, c.frame.rdx),
            stack(c, t, 0),
            stack(c, t, 1),
        ) {
            (Some(name), Some(at), Some(size)) => if size > usize::MAX || !process::mapped(
                t.space.mem,
                at as int,
                size as int,
            ) {
                None
            } else {
                let p = registry::comps(path);
                status(
                    c,
                    t,
                    Sv {
                        registry: registry::value_set(
                            s.registry,
                            p,
                            text::lowered(name),
                            c.frame.r9 as u32,
                            process::peek(t.space.mem, at as int, size as nat),
                        ),
                        ..s
                    },
                    s.registry.contains_key(p),
                    STATUS_OBJECT_NAME_NOT_FOUND,
                )
            },
            _ => None,
        },
    }
}

fn do_set_value(c: &Caller, t: &Task, s: &mut Sys) -> (r: Outcome)
    requires
        t.wf(),
        old(s).wf(),
    ensures
        final(s).wf(),
        sys::meets(nt_set_value(*c, t@, old(s)@), *c, t@, final(s)@, r),
{
    let path = match t.handle_regkey(c.frame.r10 as i32) {
        Some(p) => crate::text::string_of(p.as_slice()),
        None => { return give(STATUS_INVALID_HANDLE); },
    };
    let name = match crate::nt_names::unicode_string_ascii(t, c.frame.rdx) {
        Some(n) => crate::text::string_of(n.as_slice()),
        None => { return Outcome::Fault; },
    };
    let (at, size) = match (stack_arg(c, t, 0), stack_arg(c, t, 1)) {
        (Some(a), Some(b)) => (a, b),
        _ => { return Outcome::Fault; },
    };
    let data = match t.load_bytes(at, size) {
        Some(d) => d,
        None => { return Outcome::Fault; },
    };
    if s.registry.set_value(path.as_str(), name.as_str(), c.frame.r9 as u32, data.as_slice()) {
        give(STATUS_SUCCESS)
    } else {
        give(STATUS_OBJECT_NAME_NOT_FOUND)
    }
}

/// A value's partial information: title index, type, length, and the bytes.
pub open spec fn partial_info(ty: u32, data: Seq<u8>) -> Seq<u8> {
    bytes::bytes32(0) + bytes::bytes32(ty) + bytes::bytes32(data.len() as u32) + data
}

/// What a query answers once the value is known.
pub open spec fn value_told(c: Caller, t: Tv, s: Sv, ty: u32, data: Seq<u8>) -> Step {
    let need = 12 + data.len();
    match (stack(c, t, 0), stack(c, t, 1)) {
        (Some(room), Some(ret_len)) => match puts32(
            c,
            t,
            s,
            ret_len,
            need as u32,
            STATUS_SUCCESS,
        ) {
            Some((_, t2, _, _)) => if room < need {
                gives(c, t2, s, STATUS_INFO_LENGTH_MISMATCH)
            } else {
                match task::poked(t2, c.frame.r9 as int, partial_info(ty, data)) {
                    None => None,
                    Some(t3) => gives(c, t3, s, STATUS_SUCCESS),
                }
            },
            None => None,
        },
        _ => None,
    }
}

/// `NtQueryValueKey(handle, *name, class, *info, length, *result_length)`:
/// only the partial information.
pub open spec fn nt_query_value(c: Caller, t: Tv, s: Sv) -> Step {
    match task::regkey_at(t.fds, (c.frame.r10 as i32) as int) {
        None => gives(c, t, s, STATUS_INVALID_HANDLE),
        Some(path) => match nt_names::unicode(t.space.mem, c.frame.rdx) {
            None => None,
            Some(name) => if c.frame.r8 != 2 {
                gives(c, t, s, STATUS_INVALID_INFO_CLASS)
            } else {
                match registry::value_of(
                    s.registry,
                    registry::comps(path),
                    text::lowered(name),
                ) {
                    None => gives(c, t, s, STATUS_OBJECT_NAME_NOT_FOUND),
                    Some((ty, data)) => value_told(c, t, s, ty, data),
                }
            },
        },
    }
}

fn tell_value(c: &Caller, t: &mut Task, s: &Sys, ty: u32, data: &Vec<u8>) -> (r: Outcome)
    requires
        old(t).wf(),
    ensures
        final(t).wf(),
        final(t).pml4() == old(t).pml4(),
        sys::meets(value_told(*c, old(t)@, s@, ty, data@), *c, final(t)@, s@, r),
{
    let len: usize = data.len();
    let (room, ret_len) = match (stack_arg(c, t, 0), stack_arg(c, t, 1)) {
        (Some(a), Some(b)) => (a, b),
        _ => { return Outcome::Fault; },
    };
    let need: u128 = 12 + len as u128;
    proof {
        let w = puts32(*c, t@, s@, ret_len, need as u32, STATUS_SUCCESS);
    }
    match put_opt32(t, ret_len, need as u32, STATUS_SUCCESS) {
        Outcome::Fault => { return Outcome::Fault; },
        _ => {},
    }
    if (room as u128) < need {
        return give(STATUS_INFO_LENGTH_MISMATCH);
    }
    let mut b = crate::bytes::to_bytes32(0);
    let w = crate::bytes::to_bytes32(ty);
    crate::bytes::extend(&mut b, w.as_slice());
    let w = crate::bytes::to_bytes32(len as u32);
    crate::bytes::extend(&mut b, w.as_slice());
    crate::bytes::extend(&mut b, data.as_slice());
    if t.store(c.frame.r9, 0, b.as_slice()) {
        give(STATUS_SUCCESS)
    } else {
        Outcome::Fault
    }
}

fn do_query_value(c: &Caller, t: &mut Task, s: &Sys) -> (r: Outcome)
    requires
        old(t).wf(),
        s.wf(),
    ensures
        final(t).wf(),
        final(t).pml4() == old(t).pml4(),
        sys::meets(nt_query_value(*c, old(t)@, s@), *c, final(t)@, s@, r),
{
    let path = match t.handle_regkey(c.frame.r10 as i32) {
        Some(p) => crate::text::string_of(p.as_slice()),
        None => { return give(STATUS_INVALID_HANDLE); },
    };
    let name = match crate::nt_names::unicode_string_ascii(t, c.frame.rdx) {
        Some(n) => crate::text::string_of(n.as_slice()),
        None => { return Outcome::Fault; },
    };
    if c.frame.r8 != 2 {
        return give(STATUS_INVALID_INFO_CLASS);
    }
    match s.registry.query_value(path.as_str(), name.as_str()) {
        None => give(STATUS_OBJECT_NAME_NOT_FOUND),
        Some((ty, data)) => tell_value(c, t, s, ty, &data),
    }
}

/// `NtDeleteKey(handle)`: the key goes at once.
pub open spec fn nt_delete_key(c: Caller, t: Tv, s: Sv) -> Step {
    match task::regkey_at(t.fds, (c.frame.r10 as i32) as int) {
        None => gives(c, t, s, STATUS_INVALID_HANDLE),
        Some(path) => {
            let p = registry::comps(path);
            let ok = p.len() > 0 && s.registry.contains_key(p);
            status(
                c,
                t,
                Sv {
                    registry: if ok {
                        registry::pruned(s.registry, p)
                    } else {
                        s.registry
                    },
                    ..s
                },
                ok,
                STATUS_OBJECT_NAME_NOT_FOUND,
            )
        },
    }
}

fn do_delete_key(c: &Caller, t: &Task, s: &mut Sys) -> (r: Outcome)
    requires
        t.wf(),
        old(s).wf(),
    ensures
        final(s).wf(),
        sys::meets(nt_delete_key(*c, t@, old(s)@), *c, t@, final(s)@, r),
{
    let path = match t.handle_regkey(c.frame.r10 as i32) {
        Some(p) => crate::text::string_of(p.as_slice()),
        None => { return give(STATUS_INVALID_HANDLE); },
    };
    if s.registry.delete_key(path.as_str()) {
        give(STATUS_SUCCESS)
    } else {
        give(STATUS_OBJECT_NAME_NOT_FOUND)
    }
}

// --- the loader ---

/// `LdrGetProcedureAddress(module, *name, ordinal, *address)`.
pub open spec fn ldr_proc(c: Caller, t: Tv, s: Sv) -> Step {
    let m = t.space.mem;
    let f = c.frame;
    let found = if f.rdx != 0 {
        match process::word64(m, f.rdx + 8) {
            None => None,
            Some(buf) => match nt_names::latin(m, buf) {
                None => None,
                Some(n) => nt_names::name_addr(m, c.gsbase, f.r10, n, 0),
            },
        }
    } else {
        nt_names::ordinal_addr(m, c.gsbase, f.r10, f.r8 as u16, 0)
    };
    match found {
        None => None,
        Some(a) => if a == 0 {
            gives(c, t, s, STATUS_PROCEDURE_NOT_FOUND)
        } else {
            puts64(c, t, s, f.r9, a as u64, STATUS_SUCCESS)
        },
    }
}

fn do_ldr_proc(c: &Caller, t: &mut Task, s: &Sys) -> (r: Outcome)
    requires
        old(t).wf(),
    ensures
        final(t).wf(),
        final(t).pml4() == old(t).pml4(),
        sys::meets(ldr_proc(*c, old(t)@, s@), *c, final(t)@, s@, r),
{
    let f = c.frame;
    let found = if f.rdx != 0 {
        match t.load64(f.rdx, 8) {
            None => None,
            Some(buf) => match crate::nt_names::user_cstr(t, buf) {
                None => None,
                Some(n) => crate::nt_names::export_by_name(t, c.gsbase, f.r10, n.as_slice(), 0),
            },
        }
    } else {
        crate::nt_names::export_by_ordinal(t, c.gsbase, f.r10, f.r8 as u16, 0)
    };
    match found {
        None => Outcome::Fault,
        Some(a) => if a == 0 {
            give(STATUS_PROCEDURE_NOT_FOUND)
        } else {
            proof {
                let w = puts64(*c, t@, s@, f.r9, a as u64, STATUS_SUCCESS);
            }
            put_opt64(t, f.r9, a as u64, STATUS_SUCCESS)
        },
    }
}

/// `LdrLoadDll(.., *name, *handle)`: only a module that is already there.
pub open spec fn ldr_load(c: Caller, t: Tv, s: Sv) -> Step {
    match nt_names::unicode(t.space.mem, c.frame.r8) {
        None => None,
        Some(name) => match nt_names::module_base(
            t.space.mem,
            c.gsbase,
            nt_names::mod_name(name),
        ) {
            None => None,
            Some(base) => if base == 0 {
                gives(c, t, s, STATUS_DLL_NOT_FOUND)
            } else {
                puts64(c, t, s, c.frame.r9, base, STATUS_SUCCESS)
            },
        },
    }
}

fn do_ldr_load(c: &Caller, t: &mut Task, s: &Sys) -> (r: Outcome)
    requires
        old(t).wf(),
    ensures
        final(t).wf(),
        final(t).pml4() == old(t).pml4(),
        sys::meets(ldr_load(*c, old(t)@, s@), *c, final(t)@, s@, r),
{
    let name = match crate::nt_names::unicode_string_ascii(t, c.frame.r8) {
        Some(n) => n,
        None => { return Outcome::Fault; },
    };
    let want = crate::nt_names::normalize_mod(name.as_slice());
    match crate::nt_names::ldr_find(t, c.gsbase, want.as_slice()) {
        None => Outcome::Fault,
        Some(base) => if base == 0 {
            give(STATUS_DLL_NOT_FOUND)
        } else {
            proof {
                let w = puts64(*c, t@, s@, c.frame.r9, base, STATUS_SUCCESS);
            }
            put_opt64(t, c.frame.r9, base, STATUS_SUCCESS)
        },
    }
}

// --- the service table ---

/// What `ntdll` service `idx` comes to.
pub open spec fn ntdll(idx: u16, done: u64, c: Caller, t: Tv, s: Sv) -> Step {
    if idx == nt::NT_NTTERMINATEPROCESS {
        let code = c.frame.rdx as i32;
        let (t2, s2) = sys::ended(t, s, code);
        Some((c, t2, s2, Outcome::Exit(code)))
    } else if idx == nt::NT_NTCLOSE {
        let (t2, s2, ok) = sys::closed(t, s, c.frame.r10 as i32);
        status(c, t2, s2, ok, STATUS_INVALID_HANDLE)
    } else if idx == nt::NT_NTWRITEFILE {
        nt_write(c, t, s, done)
    } else if idx == nt::NT_NTREADFILE {
        nt_read(c, t, s)
    } else if idx == nt::NT_NTALLOCATEVIRTUALMEMORY {
        nt_alloc(c, t, s)
    } else if idx == nt::NT_NTFREEVIRTUALMEMORY || idx == nt::NT_NTPROTECTVIRTUALMEMORY || idx
        == nt::NT_NTSETINFORMATIONTHREAD || idx == nt::NT_NTSETINFORMATIONPROCESS {
        gives(c, t, s, STATUS_SUCCESS)
    } else if idx == nt::NT_NTQUERYINFORMATIONPROCESS {
        nt_query_process(c, t, s)
    } else if idx == nt::NT_NTQUERYVIRTUALMEMORY {
        nt_query_memory(c, t, s)
    } else if idx == nt::NT_NTCREATEEVENT {
        nt_create_event(c, t, s)
    } else if idx == nt::NT_NTWAITFORSINGLEOBJECT {
        nt_wait(c, t, s)
    } else if idx == nt::NT_NTSETEVENT {
        nt_change_event(c, t, s, true)
    } else if idx == nt::NT_NTRESETEVENT {
        nt_change_event(c, t, s, false)
    } else if idx == nt::NT_NTCONTINUE {
        nt_continue(c, t, s)
    } else if idx == nt::NT_NTQUEUEAPCTHREAD {
        nt_queue_apc(c, t, s)
    } else if idx == nt::NT_NTTESTALERT {
        nt_test_alert(c, t, s)
    } else if idx == nt::NT_RTLADDVECTOREDEXCEPTIONHANDLER {
        handler_set(c, t, s, c.frame.rdx, seh::PE_EXC_ADDR as i64)
    } else if idx == nt::NT_RTLREMOVEVECTOREDEXCEPTIONHANDLER {
        handler_set(c, t, s, 0, 1)
    } else if idx == nt::NT_NTCREATEKEY {
        nt_create_key(c, t, s)
    } else if idx == nt::NT_NTOPENKEY {
        nt_open_key(c, t, s)
    } else if idx == nt::NT_NTSETVALUEKEY {
        nt_set_value(c, t, s)
    } else if idx == nt::NT_NTQUERYVALUEKEY {
        nt_query_value(c, t, s)
    } else if idx == nt::NT_NTDELETEKEY {
        nt_delete_key(c, t, s)
    } else if idx == nt::NT_LDRGETPROCEDUREADDRESS {
        ldr_proc(c, t, s)
    } else if idx == nt::NT_LDRLOADDLL {
        ldr_load(c, t, s)
    } else {
        gives(c, t, s, STATUS_INVALID_PARAMETER)
    }
}

/// Serve a native call; `done` is how much of a write was done before.
pub fn dispatch_ntdll(idx: u16, done: u64, c: &mut Caller, t: &mut Task, s: &mut Sys) -> (r: Outcome)
    requires
        old(t).wf(),
        old(s).wf(),
    ensures
        final(t).wf(),
        final(s).wf(),
        final(t).pml4() == old(t).pml4(),
        sys::meets(ntdll(idx, done, *old(c), old(t)@, old(s)@), *final(c), final(t)@, final(s)@, r),
{
    if idx == nt::NT_NTTERMINATEPROCESS {
        let code: i32 = c.frame.rdx as i32;
        crate::sys::end(t, s, code);
        Outcome::Exit(code)
    } else if idx == nt::NT_NTCLOSE {
        if crate::sys::close(t, s, c.frame.r10 as i32) {
            give(STATUS_SUCCESS)
        } else {
            give(STATUS_INVALID_HANDLE)
        }
    } else if idx == nt::NT_NTWRITEFILE {
        do_write(c, t, s, done)
    } else if idx == nt::NT_NTREADFILE {
        do_read(c, t, s)
    } else if idx == nt::NT_NTALLOCATEVIRTUALMEMORY {
        do_alloc(c, t, s)
    } else if idx == nt::NT_NTFREEVIRTUALMEMORY || idx == nt::NT_NTPROTECTVIRTUALMEMORY || idx
        == nt::NT_NTSETINFORMATIONTHREAD || idx == nt::NT_NTSETINFORMATIONPROCESS {
        give(STATUS_SUCCESS)
    } else if idx == nt::NT_NTQUERYINFORMATIONPROCESS {
        do_query_process(c, t, s)
    } else if idx == nt::NT_NTQUERYVIRTUALMEMORY {
        do_query_memory(c, t, s)
    } else if idx == nt::NT_NTCREATEEVENT {
        do_create_event(c, t, s)
    } else if idx == nt::NT_NTWAITFORSINGLEOBJECT {
        do_wait(c, t, s)
    } else if idx == nt::NT_NTSETEVENT {
        do_change_event(c, t, s, true)
    } else if idx == nt::NT_NTRESETEVENT {
        do_change_event(c, t, s, false)
    } else if idx == nt::NT_NTCONTINUE {
        do_continue(c, t, s)
    } else if idx == nt::NT_NTQUEUEAPCTHREAD {
        do_queue_apc(c, t, s)
    } else if idx == nt::NT_NTTESTALERT {
        do_test_alert(c, t, s)
    } else if idx == nt::NT_RTLADDVECTOREDEXCEPTIONHANDLER {
        proof {
            let w = handler_set(*c, t@, s@, c.frame.rdx, seh::PE_EXC_ADDR as i64);
        }
        set_handler(t, c.frame.rdx, crate::seh::PE_EXC_ADDR as i64)
    } else if idx == nt::NT_RTLREMOVEVECTOREDEXCEPTIONHANDLER {
        proof {
            let w = handler_set(*c, t@, s@, 0, 1);
        }
        set_handler(t, 0, 1)
    } else if idx == nt::NT_NTCREATEKEY {
        do_create_key(c, t, s)
    } else if idx == nt::NT_NTOPENKEY {
        do_open_key(c, t, s)
    } else if idx == nt::NT_NTSETVALUEKEY {
        do_set_value(c, t, s)
    } else if idx == nt::NT_NTQUERYVALUEKEY {
        do_query_value(c, t, s)
    } else if idx == nt::NT_NTDELETEKEY {
        do_delete_key(c, t, s)
    } else if idx == nt::NT_LDRGETPROCEDUREADDRESS {
        do_ldr_proc(c, t, s)
    } else if idx == nt::NT_LDRLOADDLL {
        do_ldr_load(c, t, s)
    } else {
        give(STATUS_INVALID_PARAMETER)
    }
}

/// What the NT call with selector `sel` comes to.
pub open spec fn nt_call(sel: u16, done: u64, c: Caller, t: Tv, s: Sv) -> Step {
    if sel & nt::NT_NTDLL_FLAG != 0 {
        ntdll(sel & !nt::NT_NTDLL_FLAG, done, c, t, s)
    } else {
        nt_kernel32::kernel32(sel, done, c, t, s)
    }
}

/// Serve a call from an NT stub: the flag bit of the selector picks the native
/// layer over Win32.
pub fn dispatch(sel: u16, done: u64, c: &mut Caller, t: &mut Task, s: &mut Sys) -> (r: Outcome)
    requires
        old(t).wf(),
        old(s).wf(),
    ensures
        final(t).wf(),
        final(s).wf(),
        final(t).pml4() == old(t).pml4(),
        sys::meets(nt_call(sel, done, *old(c), old(t)@, old(s)@), *final(c), final(t)@, final(s)@, r),
{
    if sel & nt::NT_NTDLL_FLAG != 0 {
        dispatch_ntdll(sel & !nt::NT_NTDLL_FLAG, done, c, t, s)
    } else {
        crate::nt_kernel32::dispatch_kernel32(sel, done, c, t, s)
    }
}

/// A write through the POSIX call, through `WriteFile` and through
/// `NtWriteFile` is the same write: on the same descriptor, with the same bytes,
/// the files and the output come out the same, whichever personality asks.
pub proof fn law_personalities_share_files(
    p: Caller,
    w: Caller,
    n: Caller,
    t: Tv,
    s: Sv,
    fd: u64,
    buf: u64,
    len: u64,
    done: u64,
)
    requires
        w.frame.r10 == fd && w.frame.rdx == buf && w.frame.r8 == len,
        n.frame.r10 == fd && stack(n, t, 1) == Some(buf) && stack(n, t, 2) == Some(len),
        stack(n, t, 0) is Some,
    ensures
        ({
            let posix = crate::syscall_fs::write_call(p, t, s, fd, buf, len, done);
            let win32 = nt_kernel32::write_file(w, t, s, done);
            let native = nt_write(n, t, s, done);
            &&& (posix is None ==> win32 is None && native is None)
            &&& (win32 matches Some((_, _, s2, _)) ==> posix matches Some((_, _, s1, _)) && s1 == s2)
            &&& (native matches Some((_, _, s3, _)) ==> posix matches Some((_, _, s1, _)) && s1 == s3)
        }),
{
}

} // verus!
