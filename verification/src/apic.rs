//! The local interrupt controller and its timer.
//!
//! A register access comes out as the register and the value; the machine
//! makes it.
use vstd::prelude::*;

verus! {

pub const REG_ID: u32 = 0x20;

pub const REG_TPR: u32 = 0x80;

pub const REG_EOI: u32 = 0xB0;

pub const REG_SVR: u32 = 0xF0;

pub const REG_LVT_TIMER: u32 = 0x320;

pub const REG_LVT_LINT0: u32 = 0x350;

pub const REG_LVT_LINT1: u32 = 0x360;

pub const REG_LVT_ERROR: u32 = 0x370;

pub const REG_TIMER_INITCNT: u32 = 0x380;

pub const REG_TIMER_CURRCNT: u32 = 0x390;

pub const REG_TIMER_DIV: u32 = 0x3E0;

pub const SVR_ENABLE: u32 = 0x100;

pub const LVT_MASKED: u32 = 0x1_0000;

pub const LVT_TIMER_PERIODIC: u32 = 0x2_0000;

pub const TIMER_DIV_16: u32 = 3;

pub const SPURIOUS_VECTOR: u8 = 0xFF;

pub const TIMER_VECTOR: u8 = 0x20;

pub const AHCI_VECTOR: u8 = 0x21;

pub const TIMER_HZ: u32 = 100;

pub const PIT_FREQ: u32 = 1_193_182;

pub const CALIB_MS: u32 = 10;

/// A register and the value to write to it.
#[derive(Clone, Copy, PartialEq, Eq, Debug, Structural)]
pub struct RegWrite {
    pub reg: u32,
    pub value: u32,
}

/// What is known of the controller.
pub struct Apic {
    pub base: u64,
    pub ticks: u64,
    pub counts_per_ms: u64,
    pub bsp_apic_id: u8,
}

pub fn eoi() -> (r: RegWrite)
    ensures
        r == (RegWrite { reg: REG_EOI, value: 0 }),
{
    RegWrite { reg: REG_EOI, value: 0 }
}

pub fn timer_hz() -> (r: u32)
    ensures
        r == TIMER_HZ,
{
    TIMER_HZ
}

/// The initial count of the periodic timer.
pub open spec fn timer_count(per_ms: u64) -> int {
    let v = (per_ms as u32) * 10;
    if v > u32::MAX {
        u32::MAX as int
    } else if v < 1 {
        1
    } else {
        v
    }
}

/// The processor's id, from its id register.
pub fn apic_id(reg: u32) -> (r: u32)
    ensures
        r == reg >> 24,
{
    reg >> 24
}

/// The writes that enable this processor's controller; its id register is read
/// after them.
pub fn enable_this_cpu() -> (r: [RegWrite; 5])
    ensures
        r@ == seq![
            RegWrite { reg: REG_TPR, value: 0 },
            RegWrite { reg: REG_SVR, value: SVR_ENABLE | SPURIOUS_VECTOR as u32 },
            RegWrite { reg: REG_LVT_LINT0, value: LVT_MASKED },
            RegWrite { reg: REG_LVT_LINT1, value: LVT_MASKED },
            RegWrite { reg: REG_LVT_ERROR, value: LVT_MASKED },
        ],
{
    let r: [RegWrite; 5] = [
        RegWrite { reg: REG_TPR, value: 0 },
        RegWrite { reg: REG_SVR, value: SVR_ENABLE | SPURIOUS_VECTOR as u32 },
        RegWrite { reg: REG_LVT_LINT0, value: LVT_MASKED },
        RegWrite { reg: REG_LVT_LINT1, value: LVT_MASKED },
        RegWrite { reg: REG_LVT_ERROR, value: LVT_MASKED },
    ];
    assert(r@ =~= seq![
        RegWrite { reg: REG_TPR, value: 0 },
        RegWrite { reg: REG_SVR, value: SVR_ENABLE | SPURIOUS_VECTOR as u32 },
        RegWrite { reg: REG_LVT_LINT0, value: LVT_MASKED },
        RegWrite { reg: REG_LVT_LINT1, value: LVT_MASKED },
        RegWrite { reg: REG_LVT_ERROR, value: LVT_MASKED },
    ]);
    r
}

/// The count the interval timer runs down from while the other is measured.
pub fn pit_count() -> (r: u16)
    ensures
        r == 11_931,
{
    (PIT_FREQ * CALIB_MS / 1000) as u16
}

/// Timer counts per millisecond, from what the timer stood at when the
/// interval timer had run down.
pub fn calibrated(current: u32) -> (r: u64)
    ensures
        r == (u32::MAX - current) / 10,
{
    ((u32::MAX - current) / CALIB_MS) as u64
}

impl Apic {
    pub fn new() -> (r: Apic)
        ensures
            r == (Apic { base: 0, ticks: 0, counts_per_ms: 0, bsp_apic_id: 0 }),
    {
        Apic { base: 0, ticks: 0, counts_per_ms: 0, bsp_apic_id: 0 }
    }

    pub fn on_timer_tick(&mut self)
        ensures
            *final(self) == (Apic { ticks: old(self).ticks.wrapping_add(1), ..*old(self) }),
    {
        self.ticks = self.ticks.wrapping_add(1);
    }

    pub fn ticks(&self) -> (r: u64)
        ensures
            r == self.ticks,
    {
        self.ticks
    }

    pub fn bsp_apic_id(&self) -> (r: u8)
        ensures
            r == self.bsp_apic_id,
    {
        self.bsp_apic_id
    }

    pub fn counts_per_ms(&self) -> (r: u64)
        ensures
            r == self.counts_per_ms,
    {
        self.counts_per_ms
    }

    /// Record where the registers are mapped.
    pub fn set_base(&mut self, local_apic_addr: u64, hhdm: u64)
        requires
            local_apic_addr + hhdm <= u64::MAX,
        ensures
            *final(self) == (Apic { base: (local_apic_addr + hhdm) as u64, ..*old(self) }),
    {
        self.base = local_apic_addr + hhdm;
    }

    /// Record the first processor's id and the timer's rate.
    pub fn init_bsp(&mut self, id: u32, current: u32)
        ensures
            *final(self) == (Apic {
                bsp_apic_id: id as u8,
                counts_per_ms: ((u32::MAX - current) / 10) as u64,
                ..*old(self)
            }),
    {
        self.bsp_apic_id = id as u8;
        self.counts_per_ms = calibrated(current);
    }

    /// The writes that start the periodic timer.
    pub fn start_periodic_timer(&self) -> (r: [RegWrite; 3])
        ensures
            r@ == seq![
                RegWrite { reg: REG_TIMER_DIV, value: TIMER_DIV_16 },
                RegWrite { reg: REG_LVT_TIMER, value: TIMER_VECTOR as u32 | LVT_TIMER_PERIODIC },
                RegWrite {
                    reg: REG_TIMER_INITCNT,
                    value: timer_count(self.counts_per_ms) as u32,
                },
            ],
    {
        let per: u32 = self.counts_per_ms as u32;
        let v: u64 = per as u64 * 10;
        let n: u32 = if v > 0xFFFF_FFFF {
            0xFFFF_FFFF
        } else if v < 1 {
            1
        } else {
            v as u32
        };
        let r: [RegWrite; 3] = [
            RegWrite { reg: REG_TIMER_DIV, value: TIMER_DIV_16 },
            RegWrite { reg: REG_LVT_TIMER, value: TIMER_VECTOR as u32 | LVT_TIMER_PERIODIC },
            RegWrite { reg: REG_TIMER_INITCNT, value: n },
        ];
        assert(r@ =~= seq![
            RegWrite { reg: REG_TIMER_DIV, value: TIMER_DIV_16 },
            RegWrite { reg: REG_LVT_TIMER, value: TIMER_VECTOR as u32 | LVT_TIMER_PERIODIC },
            RegWrite { reg: REG_TIMER_INITCNT, value: n },
        ]);
        r
    }
}

} // verus!
