//! The interrupt table: which vector goes where, and what a fault leads to.
use vstd::prelude::*;

use crate::apic;

verus! {

pub const DOUBLE_FAULT_IST_INDEX: u16 = 0;

pub const NMI_IST_INDEX: u16 = 1;

pub const PAGE_FAULT_IST_INDEX: u16 = 2;

/// Who handles a vector.
#[derive(Clone, Copy, PartialEq, Eq, Debug, Structural)]
pub enum Handler {
    DivideError,
    Nmi,
    Breakpoint,
    InvalidOpcode,
    DoubleFault,
    StackSegment,
    GeneralProtection,
    PageFault,
    Timer,
    Ahci,
    Spurious,
}

/// How a vector is entered: its handler, and the stack it runs on where that is
/// not the current one.
#[derive(Clone, Copy, PartialEq, Eq, Debug, Structural)]
pub struct Gate {
    pub handler: Handler,
    pub ist: Option<u16>,
}

/// What `vector` enters by, if anything.
pub open spec fn gate_of(vector: u8) -> Option<Gate> {
    if vector == 0 {
        Some(Gate { handler: Handler::DivideError, ist: None })
    } else if vector == 2 {
        Some(Gate { handler: Handler::Nmi, ist: Some(NMI_IST_INDEX) })
    } else if vector == 3 {
        Some(Gate { handler: Handler::Breakpoint, ist: None })
    } else if vector == 6 {
        Some(Gate { handler: Handler::InvalidOpcode, ist: None })
    } else if vector == 8 {
        Some(Gate { handler: Handler::DoubleFault, ist: Some(DOUBLE_FAULT_IST_INDEX) })
    } else if vector == 12 {
        Some(Gate { handler: Handler::StackSegment, ist: None })
    } else if vector == 13 {
        Some(Gate { handler: Handler::GeneralProtection, ist: None })
    } else if vector == 14 {
        Some(Gate { handler: Handler::PageFault, ist: Some(PAGE_FAULT_IST_INDEX) })
    } else if vector == apic::TIMER_VECTOR {
        Some(Gate { handler: Handler::Timer, ist: None })
    } else if vector == apic::AHCI_VECTOR {
        Some(Gate { handler: Handler::Ahci, ist: None })
    } else if vector == apic::SPURIOUS_VECTOR {
        Some(Gate { handler: Handler::Spurious, ist: None })
    } else {
        None
    }
}

/// What a vector enters by.
pub fn gate(vector: u8) -> (r: Option<Gate>)
    ensures
        r == gate_of(vector),
{
    if vector == 0 {
        Some(Gate { handler: Handler::DivideError, ist: None })
    } else if vector == 2 {
        Some(Gate { handler: Handler::Nmi, ist: Some(NMI_IST_INDEX) })
    } else if vector == 3 {
        Some(Gate { handler: Handler::Breakpoint, ist: None })
    } else if vector == 6 {
        Some(Gate { handler: Handler::InvalidOpcode, ist: None })
    } else if vector == 8 {
        Some(Gate { handler: Handler::DoubleFault, ist: Some(DOUBLE_FAULT_IST_INDEX) })
    } else if vector == 12 {
        Some(Gate { handler: Handler::StackSegment, ist: None })
    } else if vector == 13 {
        Some(Gate { handler: Handler::GeneralProtection, ist: None })
    } else if vector == 14 {
        Some(Gate { handler: Handler::PageFault, ist: Some(PAGE_FAULT_IST_INDEX) })
    } else if vector == apic::TIMER_VECTOR {
        Some(Gate { handler: Handler::Timer, ist: None })
    } else if vector == apic::AHCI_VECTOR {
        Some(Gate { handler: Handler::Ahci, ist: None })
    } else if vector == apic::SPURIOUS_VECTOR {
        Some(Gate { handler: Handler::Spurious, ist: None })
    } else {
        None
    }
}

/// The whole table.
pub fn init() -> (r: Vec<Option<Gate>>)
    ensures
        r@ == Seq::new(256, |i: int| gate_of(i as u8)),
{
    let mut r: Vec<Option<Gate>> = Vec::new();
    let mut i: u32 = 0;
    while i < 256
        invariant
            i <= 256,
            r@ == Seq::new(i as nat, |j: int| gate_of(j as u8)),
        decreases 256 - i,
    {
        r.push(gate(i as u8));
        i = i + 1;
        assert(r@ =~= Seq::new(i as nat, |j: int| gate_of(j as u8)));
    }
    r
}

/// What a fault that nobody catches leads to.
#[derive(Clone, Copy, PartialEq, Eq, Debug, Structural)]
pub enum Verdict {
    /// The process ends with this status.
    Kill(i32),
    /// The machine stops.
    Halt,
}

/// A fault in user mode ends the process as a segmentation fault does; one in
/// the kernel stops the machine.
pub fn fatal(cs: u16) -> (r: Verdict)
    ensures
        r == if cs & 3 == 3 {
            Verdict::Kill(139)
        } else {
            Verdict::Halt
        },
{
    if cs & 3 == 3 {
        Verdict::Kill(139)
    } else {
        Verdict::Halt
    }
}

/// The selectors of the user segments: code lies behind data, and both carry
/// the user's level.
pub fn user_selectors(user_code: u16, user_data: u16) -> (r: (u64, u64))
    ensures
        r.0 == (user_code | 3) as u64,
        r.1 == (user_data | 3) as u64,
{
    ((user_code | 3) as u64, (user_data | 3) as u64)
}

/// The two faults that may come on a broken stack, and the one that no mask
/// holds off, each have a stack of their own.
pub proof fn law_critical_faults_have_their_own_stack(v: u8, w: u8)
    requires
        gate_of(v) matches Some(g) && g.ist is Some,
        gate_of(w) matches Some(h) && h.ist is Some,
        v != w,
    ensures
        gate_of(v)->0.ist != gate_of(w)->0.ist,
{
}

} // verus!
