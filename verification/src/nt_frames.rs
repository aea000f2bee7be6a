//! What a Windows program finds on its stack when a fault or an asynchronous
//! call is delivered to it.
use vstd::prelude::*;

use crate::apc;
use crate::apc::{ApcEntry, Regs};
use crate::bytes;
use crate::nt_ntdll;
use crate::seh;
use crate::seh::PageFault;

verus! {

/// Behind a delivered asynchronous call are the registers to resume with, and
/// in front of them, where a callee finds its home area, the three arguments
/// and the routine.
pub proof fn law_delivered_call_has_its_arguments(r: Regs, e: ApcEntry)
    ensures
        ({
            let b = apc::apc_context(r, e);
            &&& bytes::le64(b, 0x00) == e.arg1
            &&& bytes::le64(b, 0x08) == e.arg2
            &&& bytes::le64(b, 0x10) == e.arg3
            &&& bytes::le64(b, 0x18) == e.routine
            &&& nt_ntdll::captures(b, r)
        }),
{
    let b0 = apc::context(r);
    nt_ntdll::law_context_has_every_register_at_its_place(r, e);
    lemma_home(b0, e);
}

proof fn lemma_home(b0: Seq<u8>, e: ApcEntry)
    requires
        b0.len() == 0x4D0,
    ensures
        ({
            let b = apc::w64(b0, 0x00, e.arg1);
            let b = apc::w64(b, 0x08, e.arg2);
            let b = apc::w64(b, 0x10, e.arg3);
            let b = apc::w64(b, 0x18, e.routine);
            &&& bytes::le64(b, 0x00) == e.arg1
            &&& bytes::le64(b, 0x08) == e.arg2
            &&& bytes::le64(b, 0x10) == e.arg3
            &&& bytes::le64(b, 0x18) == e.routine
        }),
{
    let b1 = apc::w64(b0, 0x00, e.arg1);
    bytes::lemma_store64(b0, 0x00, e.arg1);
    let b2 = apc::w64(b1, 0x08, e.arg2);
    bytes::lemma_store64(b1, 0x08, e.arg2);
    let b3 = apc::w64(b2, 0x10, e.arg3);
    bytes::lemma_store64(b2, 0x10, e.arg3);
    bytes::lemma_store64(b3, 0x18, e.routine);
    assert(bytes::le64(b2, 0x00) == e.arg1);
    assert(bytes::le64(b3, 0x00) == e.arg1 && bytes::le64(b3, 0x08) == e.arg2);
}

/// The record of a fault gives its code and the address of the instruction, and
/// for a page fault the kind of access and the address that it was made to.
pub proof fn law_record_says_what_happened(code: u32, rip: u64, pf: Option<PageFault>)
    ensures
        ({
            let b = seh::record(code, rip, pf);
            &&& b.len() == 0x98
            &&& bytes::le32(b, 0) == code
            &&& bytes::le64(b, 0x10) == rip
            &&& pf matches Some(p) ==> bytes::le32(b, 0x18) == 2 && bytes::le64(b, 0x28) == p.addr
                && bytes::le64(b, 0x20) == (if p.error_code / 16 % 2 == 1 {
                8u64
            } else if p.error_code / 2 % 2 == 1 {
                1
            } else {
                0
            })
            &&& pf is None ==> bytes::le32(b, 0x18) == 0
        }),
{
    let b0 = bytes::zeros(0x98);
    let b1 = apc::w32(b0, 0, code);
    bytes::lemma_le32_of_splice(b0, 0, code);
    let b2 = apc::w64(b1, 0x10, rip);
    bytes::lemma_store64(b1, 0x10, rip);
    assert(bytes::le32(b2, 0) == code);
    match pf {
        Some(p) => {
            let e: u64 = p.error_code;
            assert((e & 0x10 != 0) == (e / 16 % 2 == 1) && (e & 0x2 != 0) == (e / 2 % 2 == 1))
                by (bit_vector);
            let b3 = apc::w32(b2, 0x18, 2);
            bytes::lemma_le32_of_splice(b2, 0x18, 2);
            assert(bytes::le32(b3, 0) == code);
            assert(bytes::le64(b3, 0x10) == rip) by {
                lemma_field_of(b3, b2, 0x10);
            }
            let kind = seh::access_kind(e);
            let b4 = apc::w64(b3, 0x20, kind);
            bytes::lemma_store64(b3, 0x20, kind);
            bytes::lemma_store64(b4, 0x28, p.addr);
            assert(bytes::le32(b4, 0) == code && bytes::le32(b4, 0x18) == 2 && bytes::le64(b4, 0x10)
                == rip);
        },
        None => {
            assert(b2[0x18] == 0 && b2[0x19] == 0 && b2[0x1A] == 0 && b2[0x1B] == 0);
        },
    }
}

proof fn lemma_field_of(a: Seq<u8>, b: Seq<u8>, t: int)
    requires
        forall|x: int| t <= x < t + 8 ==> a[x] == b[x],
    ensures
        bytes::le64(a, t) == bytes::le64(b, t),
{
    assert(a[t + 0] == b[t + 0] && a[t + 1] == b[t + 1] && a[t + 2] == b[t + 2] && a[t + 3] == b[t
        + 3]);
    assert(a[t + 4] == b[t + 4] && a[t + 5] == b[t + 5] && a[t + 6] == b[t + 6] && a[t + 7] == b[t
        + 7]);
}

/// The context of a fault has every register of the interrupted code at its
/// place.
pub proof fn law_fault_context_has_the_interrupted_registers(f: seh::ExcFrame)
    ensures
        ({
            let b = apc::context(seh::regs_of(f));
            &&& bytes::le64(b, 0x78) == f.rax && bytes::le64(b, 0x80) == f.rcx
            &&& bytes::le64(b, 0x88) == f.rdx && bytes::le64(b, 0x90) == f.rbx
            &&& bytes::le64(b, 0x98) == f.rsp && bytes::le64(b, 0xA0) == f.rbp
            &&& bytes::le64(b, 0xA8) == f.rsi && bytes::le64(b, 0xB0) == f.rdi
            &&& bytes::le64(b, 0xB8) == f.r8 && bytes::le64(b, 0xC0) == f.r9
            &&& bytes::le64(b, 0xC8) == f.r10 && bytes::le64(b, 0xD0) == f.r11
            &&& bytes::le64(b, 0xD8) == f.r12 && bytes::le64(b, 0xE0) == f.r13
            &&& bytes::le64(b, 0xE8) == f.r14 && bytes::le64(b, 0xF0) == f.r15
            &&& bytes::le64(b, 0xF8) == f.rip
        }),
{
    let e = ApcEntry { routine: 0, arg1: 0, arg2: 0, arg3: 0 };
    nt_ntdll::law_context_has_every_register_at_its_place(seh::regs_of(f), e);
}

/// What is delivered lies below the red zone of the interrupted code, aligned,
/// and nothing overlaps: the context under the zone, the record under the
/// context, and the new stack pointer under both.
pub proof fn law_delivery_spares_the_red_zone(rsp: u64)
    requires
        rsp >= 0x600,
    ensures
        apc::context_at(rsp) + 0x4D0 <= rsp - 128,
        apc::context_at(rsp) % 16 == 0,
        seh::record_at(rsp) + 0x98 <= apc::context_at(rsp),
        seh::record_at(rsp) % 16 == 0,
        0 <= seh::delivered_rsp(rsp) <= seh::record_at(rsp) - 8,
        seh::delivered_rsp(rsp) % 16 == 0,
        rsp - 128 - apc::context_at(rsp) < 0x4D0 + 16,
{
}

} // verus!
