//! Structured-exception delivery.
//!
//! A ring-3 fault in a PE process with an armed vectored handler becomes a
//! call to its `KiUserExceptionDispatcher` with an `EXCEPTION_RECORD` and a
//! `CONTEXT` on the user stack; any other fault kills the process, or the
//! machine when it came from the kernel.
use vstd::prelude::*;

use crate::apc;
use crate::apc::{Regs, CTX_SIZE};
use crate::bytes::{put32, put64};
use crate::process;
use crate::process::{Process, Space};

verus! {

pub const STATUS_ILLEGAL_INSTRUCTION: u32 = 0xC000_001D;

pub const STATUS_INTEGER_DIVIDE_BY_ZERO: u32 = 0xC000_0094;

pub const STATUS_ACCESS_VIOLATION: u32 = 0xC000_0005;

/// Per-process vectored-handler slot, one pointer.
pub const PE_EXC_ADDR: u64 = 0x0000_7FF0_0000_9000;

/// The `KiUserExceptionDispatcher` code page.
pub const PE_KIUSER_ADDR: u64 = 0x0000_7FF0_0000_A000;

/// Size of an `EXCEPTION_RECORD` with all 15 parameter slots.
pub const EXR_SIZE: u64 = 0x98;

/// Full ring-3 register state at a fault.
#[derive(Clone, Copy)]
pub struct ExcFrame {
    pub r15: u64,
    pub r14: u64,
    pub r13: u64,
    pub r12: u64,
    pub rbp: u64,
    pub rbx: u64,
    pub r11: u64,
    pub r10: u64,
    pub r9: u64,
    pub r8: u64,
    pub rax: u64,
    pub rcx: u64,
    pub rdx: u64,
    pub rsi: u64,
    pub rdi: u64,
    pub rip: u64,
    pub rflags: u64,
    pub rsp: u64,
    pub cs: u64,
    pub ss: u64,
}

/// The registers of a frame.
pub open spec fn regs_of(f: ExcFrame) -> Regs {
    Regs {
        rax: f.rax,
        rcx: f.rcx,
        rdx: f.rdx,
        rbx: f.rbx,
        rsp: f.rsp,
        rbp: f.rbp,
        rsi: f.rsi,
        rdi: f.rdi,
        r8: f.r8,
        r9: f.r9,
        r10: f.r10,
        r11: f.r11,
        r12: f.r12,
        r13: f.r13,
        r14: f.r14,
        r15: f.r15,
        rip: f.rip,
        rflags: f.rflags,
        cs: f.cs,
        ss: f.ss,
    }
}

/// Snapshot a frame's registers.
pub fn exc_frame_regs(f: &ExcFrame) -> (r: Regs)
    ensures
        r == regs_of(*f),
{
    Regs {
        rax: f.rax,
        rcx: f.rcx,
        rdx: f.rdx,
        rbx: f.rbx,
        rsp: f.rsp,
        rbp: f.rbp,
        rsi: f.rsi,
        rdi: f.rdi,
        r8: f.r8,
        r9: f.r9,
        r10: f.r10,
        r11: f.r11,
        r12: f.r12,
        r13: f.r13,
        r14: f.r14,
        r15: f.r15,
        rip: f.rip,
        rflags: f.rflags,
        cs: f.cs,
        ss: f.ss,
    }
}

/// What a page fault adds to its record: the error code and the address.
#[derive(Clone, Copy)]
pub struct PageFault {
    pub error_code: u64,
    pub addr: u64,
}

/// The access kind of a page fault: 8 execute, 1 write, 0 read.
pub open spec fn access_kind(error_code: u64) -> u64 {
    if error_code & 0x10 != 0 {
        8
    } else if error_code & 0x2 != 0 {
        1
    } else {
        0
    }
}

/// The `EXCEPTION_RECORD` of a fault at `rip`.
pub open spec fn record(code: u32, rip: u64, pf: Option<PageFault>) -> Seq<u8> {
    let b = crate::bytes::zeros(0x98);
    let b = apc::w32(b, 0, code);
    let b = apc::w64(b, 0x10, rip);
    match pf {
        Some(p) => {
            let b = apc::w32(b, 0x18, 2);
            let b = apc::w64(b, 0x20, access_kind(p.error_code));
            apc::w64(b, 0x28, p.addr)
        },
        None => b,
    }
}

/// Where the record goes: below the `CONTEXT`, 16-aligned.
pub open spec fn record_at(rsp: u64) -> int {
    crate::mm::down(apc::context_at(rsp) - 0x98, 16)
}

/// The stack pointer the dispatcher starts with.
pub open spec fn delivered_rsp(rsp: u64) -> int {
    crate::mm::down(record_at(rsp) - 8, 16)
}

/// Both structures fit on mapped user memory below `rsp`.
pub open spec fn deliverable(m: Map<int, u8>, rsp: u64) -> bool {
    &&& rsp >= 0x600
    &&& process::mapped(m, record_at(rsp), 0x98)
    &&& process::mapped(m, apc::context_at(rsp), 0x4D0)
}

fn write_record(code: u32, rip: u64, pf: Option<PageFault>) -> (b: Vec<u8>)
    ensures
        b@ == record(code, rip, pf),
        b@.len() == EXR_SIZE,
{
    let mut b = crate::bytes::zeroed(0x98);
    put32(&mut b, 0, code);
    put64(&mut b, 0x10, rip);
    match pf {
        Some(p) => {
            let acc: u64 = if p.error_code & 0x10 != 0 {
                8
            } else if p.error_code & 0x2 != 0 {
                1
            } else {
                0
            };
            put32(&mut b, 0x18, 2);
            put64(&mut b, 0x20, acc);
            put64(&mut b, 0x28, p.addr);
        },
        None => (),
    }
    b
}

/// Push an `EXCEPTION_RECORD` and a `CONTEXT` onto the user stack and point
/// `frame` at the dispatcher (`rcx` = record, `rdx` = context). `false`, and
/// nothing changed, when the user stack is not mapped there.
pub fn deliver(space: &mut Process, frame: &mut ExcFrame, code: u32, pf: Option<PageFault>) -> (ok:
    bool)
    requires
        old(space).wf(),
    ensures
        final(space).wf(),
        final(space).pml4() == old(space).pml4(),
        ok == deliverable(old(space)@.mem, old(frame).rsp),
        !ok ==> final(space)@ == old(space)@ && *final(frame) == *old(frame),
        ok ==> {
            let rsp = old(frame).rsp;
            &&& final(space)@ == (Space {
                mem: process::poke(
                    process::poke(old(space)@.mem, record_at(rsp), record(code, old(frame).rip, pf)),
                    apc::context_at(rsp),
                    apc::context(regs_of(*old(frame))),
                ),
                ..old(space)@
            })
            &&& *final(frame) == (ExcFrame {
                rcx: record_at(rsp) as u64,
                rdx: apc::context_at(rsp) as u64,
                rsp: delivered_rsp(rsp) as u64,
                rip: PE_KIUSER_ADDR,
                ..*old(frame)
            })
        },
{
    if frame.rsp < 0x600 {
        return false;
    }
    let sp: u64 = frame.rsp - 128 - CTX_SIZE;
    let ctx: u64 = sp - sp % 16;
    let sp: u64 = ctx - EXR_SIZE;
    let exr: u64 = sp - sp % 16;
    let sp: u64 = exr - 8;
    let new_rsp: u64 = sp - sp % 16;
    if !space.is_mapped(exr, EXR_SIZE) || !space.is_mapped(ctx, CTX_SIZE) {
        return false;
    }
    let rec = write_record(code, frame.rip, pf);
    let regs = exc_frame_regs(frame);
    let c = crate::apc::write_context(&regs);
    space.write_user(exr, rec.as_slice());
    assert forall|i: int| ctx <= i < ctx + 0x4D0 implies #[trigger] space@.mem.contains_key(i) by {
        assert(old(space)@.mem.contains_key(i));
    }
    space.write_user(ctx, c.as_slice());
    frame.rcx = exr;
    frame.rdx = ctx;
    frame.rsp = new_rsp;
    frame.rip = PE_KIUSER_ADDR;
    true
}

/// What is left to do about a fault.
#[derive(Clone, Copy, PartialEq, Eq, Structural)]
pub enum FaultAction {
    /// The frame now enters the process's dispatcher.
    Resume,
    /// The process dies with this status.
    Kill(i32),
    /// The kernel itself faulted, or the fault cannot be delivered.
    Fatal,
}

/// The NTSTATUS and the exit status a fault vector stands for.
pub open spec fn fault_codes(vector: u64) -> (u32, i32) {
    if vector == 0 {
        (STATUS_INTEGER_DIVIDE_BY_ZERO, 136)
    } else if vector == 6 {
        (STATUS_ILLEGAL_INSTRUCTION, 132)
    } else {
        (STATUS_ACCESS_VIOLATION, 139)
    }
}

/// The vectored handler of the process, 0 when none is armed.
pub open spec fn armed_handler(m: Map<int, u8>) -> u64 {
    if process::mapped(m, PE_EXC_ADDR as int, 8) {
        crate::bytes::le64(process::peek(m, PE_EXC_ADDR as int, 8), 0)
    } else {
        0
    }
}

/// The name a trap report gives a vector.
pub fn fault_name(vector: u64) -> (r: &'static str)
    ensures
        r@ == (if vector == 0 {
            "#DE divide error"@
        } else if vector == 6 {
            "#UD invalid opcode"@
        } else if vector == 13 {
            "#GP general protection fault"@
        } else {
            "#PF page fault"@
        }),
{
    if vector == 0 {
        "#DE divide error"
    } else if vector == 6 {
        "#UD invalid opcode"
    } else if vector == 13 {
        "#GP general protection fault"
    } else {
        "#PF page fault"
    }
}

/// Decide what a routed fault does. A PE process with an armed vectored
/// handler gets the exception delivered; anything else from ring 3 kills the
/// process; a fault from ring 0 is fatal.
pub fn thos_fault_dispatch(
    space: &mut Process,
    frame: &mut ExcFrame,
    vector: u64,
    error_code: u64,
    cr2: u64,
) -> (r: FaultAction)
    requires
        old(space).wf(),
    ensures
        final(space).wf(),
        final(space).pml4() == old(space).pml4(),
        ({
            let (code, sig) = fault_codes(vector);
            let rsp = old(frame).rsp;
            if old(frame).cs % 4 != 3 {
                r == FaultAction::Fatal && final(space)@ == old(space)@ && *final(frame) == *old(
                    frame,
                )
            } else if armed_handler(old(space)@.mem) == 0 {
                r == FaultAction::Kill(sig) && final(space)@ == old(space)@ && *final(frame)
                    == *old(frame)
            } else if !deliverable(old(space)@.mem, rsp) {
                r == FaultAction::Fatal && final(space)@ == old(space)@ && *final(frame) == *old(
                    frame,
                )
            } else {
                &&& r == FaultAction::Resume
                &&& final(space)@ == (Space {
                    mem: process::poke(
                        process::poke(
                            old(space)@.mem,
                            record_at(rsp),
                            record(
                                code,
                                old(frame).rip,
                                if vector == 14 {
                                    Some(PageFault { error_code, addr: cr2 })
                                } else {
                                    None
                                },
                            ),
                        ),
                        apc::context_at(rsp),
                        apc::context(regs_of(*old(frame))),
                    ),
                    ..old(space)@
                })
                &&& *final(frame) == (ExcFrame {
                    rcx: record_at(rsp) as u64,
                    rdx: apc::context_at(rsp) as u64,
                    rsp: delivered_rsp(rsp) as u64,
                    rip: PE_KIUSER_ADDR,
                    ..*old(frame)
                })
            }
        }),
{
    if frame.cs % 4 != 3 {
        return FaultAction::Fatal;
    }
    let handler: u64 = match space.read(PE_EXC_ADDR, 8) {
        Some(b) => crate::bytes::load64(b.as_slice(), 0),
        None => 0,
    };
    let (code, sig): (u32, i32) = if vector == 0 {
        (STATUS_INTEGER_DIVIDE_BY_ZERO, 136)
    } else if vector == 6 {
        (STATUS_ILLEGAL_INSTRUCTION, 132)
    } else {
        (STATUS_ACCESS_VIOLATION, 139)
    };
    if handler == 0 {
        return FaultAction::Kill(sig);
    }
    let pf: Option<PageFault> = if vector == 14 {
        Some(PageFault { error_code, addr: cr2 })
    } else {
        None
    };
    if deliver(space, frame, code, pf) {
        FaultAction::Resume
    } else {
        FaultAction::Fatal
    }
}

} // verus!
