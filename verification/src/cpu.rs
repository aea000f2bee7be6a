//! The control registers every processor sets up for itself.
use vstd::prelude::*;

verus! {

pub const CR0_MONITOR_COPROCESSOR: u64 = 0x2;

pub const CR0_EMULATE_COPROCESSOR: u64 = 0x4;

pub const CR4_OSFXSR: u64 = 0x200;

pub const CR4_OSXMMEXCPT_ENABLE: u64 = 0x400;

/// The two registers with SSE on: nothing is emulated, and the state of the
/// vector registers can be saved.
pub fn enable_sse(cr0: u64, cr4: u64) -> (r: (u64, u64))
    ensures
        r.0 == (cr0 & !CR0_EMULATE_COPROCESSOR) | CR0_MONITOR_COPROCESSOR,
        r.1 == (cr4 | CR4_OSFXSR) | CR4_OSXMMEXCPT_ENABLE,
{
    (
        (cr0 & !CR0_EMULATE_COPROCESSOR) | CR0_MONITOR_COPROCESSOR,
        (cr4 | CR4_OSFXSR) | CR4_OSXMMEXCPT_ENABLE,
    )
}

/// A processor that has been set up is left as it is by doing it again.
pub proof fn law_sse_is_enabled_once(cr0: u64, cr4: u64)
    ensures
        ({
            let a = (cr0 & !CR0_EMULATE_COPROCESSOR) | CR0_MONITOR_COPROCESSOR;
            (a & !CR0_EMULATE_COPROCESSOR) | CR0_MONITOR_COPROCESSOR == a
        }),
        ({
            let b = (cr4 | CR4_OSFXSR) | CR4_OSXMMEXCPT_ENABLE;
            (b | CR4_OSFXSR) | CR4_OSXMMEXCPT_ENABLE == b
        }),
{
    assert((((cr0 & !0x4u64) | 0x2u64) & !0x4u64) | 0x2u64 == (cr0 & !0x4u64) | 0x2u64
        && (((cr4 | 0x200u64) | 0x400u64) | 0x200u64) | 0x400u64 == (cr4 | 0x200u64) | 0x400u64)
        by (bit_vector);
}

} // verus!
