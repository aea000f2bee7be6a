//! User-mode APC delivery.
//!
//! A queued APC is handed to its thread the next time the thread is
//! alertable: a `CONTEXT` that captures the interrupted registers goes onto
//! the user stack with the APC parameters in its home area, and control moves
//! to `KiUserApcDispatcher`.
use vstd::prelude::*;

use crate::bytes::{put16, put32, put64};
use crate::process;
use crate::process::{Process, Space};

verus! {

/// The `KiUserApcDispatcher` code page.
pub const PE_KIUSERAPC_ADDR: u64 = 0x0000_7FF0_0000_B000;

/// Size of an x64 `CONTEXT`, through the XMM save area.
pub const CTX_SIZE: u64 = 0x4D0;

/// AMD64 | CONTROL | INTEGER | SEGMENTS.
pub const CONTEXT_FULL: u32 = 0x0010_0007;

/// The register state to resume once a delivered APC has run.
#[derive(Clone, Copy)]
pub struct Regs {
    pub rax: u64,
    pub rcx: u64,
    pub rdx: u64,
    pub rbx: u64,
    pub rsp: u64,
    pub rbp: u64,
    pub rsi: u64,
    pub rdi: u64,
    pub r8: u64,
    pub r9: u64,
    pub r10: u64,
    pub r11: u64,
    pub r12: u64,
    pub r13: u64,
    pub r14: u64,
    pub r15: u64,
    pub rip: u64,
    pub rflags: u64,
    pub cs: u64,
    pub ss: u64,
}

/// One queued user-mode APC: its routine and the three arguments it was
/// queued with.
#[derive(Clone, Copy)]
pub struct ApcEntry {
    pub routine: u64,
    pub arg1: u64,
    pub arg2: u64,
    pub arg3: u64,
}

pub open spec fn w16(s: Seq<u8>, at: int, v: u16) -> Seq<u8> {
    crate::bytes::splice(s, at, crate::bytes::bytes16(v))
}

pub open spec fn w32(s: Seq<u8>, at: int, v: u32) -> Seq<u8> {
    crate::bytes::splice(s, at, crate::bytes::bytes32(v))
}

pub open spec fn w64(s: Seq<u8>, at: int, v: u64) -> Seq<u8> {
    crate::bytes::splice(s, at, crate::bytes::bytes64(v))
}

/// The x64 `CONTEXT` that captures `r`.
#[verifier::opaque]
pub open spec fn context(r: Regs) -> Seq<u8> {
    let b = crate::bytes::zeros(0x4D0);
    let b = w32(b, 0x30, CONTEXT_FULL);
    let b = w16(b, 0x38, (r.cs % 0x1_0000) as u16);
    let b = w16(b, 0x42, (r.ss % 0x1_0000) as u16);
    let b = w32(b, 0x44, (r.rflags % 0x1_0000_0000) as u32);
    let b = w64(b, 0x78, r.rax);
    let b = w64(b, 0x80, r.rcx);
    let b = w64(b, 0x88, r.rdx);
    let b = w64(b, 0x90, r.rbx);
    let b = w64(b, 0x98, r.rsp);
    let b = w64(b, 0xA0, r.rbp);
    let b = w64(b, 0xA8, r.rsi);
    let b = w64(b, 0xB0, r.rdi);
    let b = w64(b, 0xB8, r.r8);
    let b = w64(b, 0xC0, r.r9);
    let b = w64(b, 0xC8, r.r10);
    let b = w64(b, 0xD0, r.r11);
    let b = w64(b, 0xD8, r.r12);
    let b = w64(b, 0xE0, r.r13);
    let b = w64(b, 0xE8, r.r14);
    let b = w64(b, 0xF0, r.r15);
    w64(b, 0xF8, r.rip)
}

/// Build the x64 `CONTEXT` for `r`.
pub fn write_context(r: &Regs) -> (b: Vec<u8>)
    ensures
        b@ == context(*r),
        b@.len() == CTX_SIZE,
{
    reveal(context);
    let mut b = crate::bytes::zeroed(0x4D0);
    put32(&mut b, 0x30, CONTEXT_FULL);
    put16(&mut b, 0x38, (r.cs % 0x1_0000) as u16);
    put16(&mut b, 0x42, (r.ss % 0x1_0000) as u16);
    put32(&mut b, 0x44, (r.rflags % 0x1_0000_0000) as u32);
    put64(&mut b, 0x78, r.rax);
    put64(&mut b, 0x80, r.rcx);
    put64(&mut b, 0x88, r.rdx);
    put64(&mut b, 0x90, r.rbx);
    put64(&mut b, 0x98, r.rsp);
    put64(&mut b, 0xA0, r.rbp);
    put64(&mut b, 0xA8, r.rsi);
    put64(&mut b, 0xB0, r.rdi);
    put64(&mut b, 0xB8, r.r8);
    put64(&mut b, 0xC0, r.r9);
    put64(&mut b, 0xC8, r.r10);
    put64(&mut b, 0xD0, r.r11);
    put64(&mut b, 0xD8, r.r12);
    put64(&mut b, 0xE0, r.r13);
    put64(&mut b, 0xE8, r.r14);
    put64(&mut b, 0xF0, r.r15);
    put64(&mut b, 0xF8, r.rip);
    b
}

/// Where the `CONTEXT` of a delivery goes: below the red zone, 16-aligned.
pub open spec fn context_at(rsp: u64) -> int {
    crate::mm::down(rsp - 128 - 0x4D0, 16)
}

/// The `CONTEXT` of `r` with the APC parameters in its home area.
pub open spec fn apc_context(r: Regs, e: ApcEntry) -> Seq<u8> {
    let b = context(r);
    let b = w64(b, 0x00, e.arg1);
    let b = w64(b, 0x08, e.arg2);
    let b = w64(b, 0x10, e.arg3);
    w64(b, 0x18, e.routine)
}

/// Stage one APC on top of `r`: push its `CONTEXT` and give back the stack
/// pointer and instruction to run. Nothing, and nothing written, when the
/// user stack is not mapped there.
pub fn stage(space: &mut Process, r: &Regs, e: &ApcEntry) -> (out: Option<(u64, u64)>)
    requires
        old(space).wf(),
    ensures
        final(space).wf(),
        final(space).pml4() == old(space).pml4(),
        ({
            let at = context_at(r.rsp);
            if r.rsp >= 0x550 && process::mapped(old(space)@.mem, at, 0x4D0) {
                &&& out == Some((at as u64, PE_KIUSERAPC_ADDR))
                &&& final(space)@ == (Space {
                    mem: process::poke(old(space)@.mem, at, apc_context(*r, *e)),
                    ..old(space)@
                })
            } else {
                out is None && final(space)@ == old(space)@
            }
        }),
{
    if r.rsp < 0x550 {
        return None;
    }
    let sp: u64 = r.rsp - 128 - CTX_SIZE;
    let at: u64 = sp - sp % 16;
    let mut b = write_context(r);
    put64(&mut b, 0x00, e.arg1);
    put64(&mut b, 0x08, e.arg2);
    put64(&mut b, 0x10, e.arg3);
    put64(&mut b, 0x18, e.routine);
    if space.store(at, b.as_slice()) {
        Some((at, PE_KIUSERAPC_ADDR))
    } else {
        None
    }
}

} // verus!
