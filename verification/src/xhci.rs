//! The USB controller and a boot-protocol keyboard: its rings, its contexts,
//! and the steps that bring the keyboard up.
//!
//! Registers and shared memory are the machine's; what goes into them, and
//! what is made of what comes back, is decided here.
use vstd::prelude::*;

use crate::bytes;
use crate::pci;
use crate::pci::{Config, ConfigWrite};

verus! {

pub const OP_USBCMD: u64 = 0x00;

pub const OP_USBSTS: u64 = 0x04;

pub const OP_CRCR: u64 = 0x18;

pub const OP_DCBAAP: u64 = 0x30;

pub const OP_CONFIG: u64 = 0x38;

pub const OP_PORTSC_BASE: u64 = 0x400;

pub const USBCMD_RUN: u32 = 1;

pub const USBCMD_HCRST: u32 = 2;

pub const USBSTS_HCH: u32 = 1;

pub const USBSTS_CNR: u32 = 0x800;

pub const PORTSC_CCS: u32 = 1;

pub const PORTSC_PED: u32 = 2;

pub const PORTSC_PR: u32 = 0x10;

pub const PORTSC_PRC: u32 = 0x20_0000;

pub const PORTSC_RW1CS: u32 = 0x00FE_0000;

pub const TRB_NORMAL: u32 = 1;

pub const TRB_SETUP: u32 = 2;

pub const TRB_DATA: u32 = 3;

pub const TRB_STATUS: u32 = 4;

pub const TRB_LINK: u32 = 6;

pub const TRB_ENABLE_SLOT: u32 = 9;

pub const TRB_ADDRESS_DEVICE: u32 = 11;

pub const TRB_CONFIGURE_ENDPOINT: u32 = 12;

pub const TRB_EV_TRANSFER: u32 = 32;

pub const TRB_EV_CMD_COMPLETE: u32 = 33;

pub const RING_TRBS: usize = 256;

pub const EP0_DCI: u32 = 1;

pub const KBD_EP_DCI: u32 = 3;

pub const EVENT_TRIES: u32 = 80_000_000;

/// A transfer request: four words.
#[derive(Clone, Copy, PartialEq, Eq, Debug, Structural)]
pub struct Trb {
    pub w0: u32,
    pub w1: u32,
    pub w2: u32,
    pub w3: u32,
}

/// The kind of an event.
pub open spec fn kind_of(t: Trb) -> u32 {
    (t.w3 >> 10) & 0x3F
}

pub fn kind(t: &Trb) -> (r: u32)
    ensures
        r == kind_of(*t),
{
    (t.w3 >> 10) & 0x3F
}

// --- rings ---

/// A request with the given cycle bit.
pub open spec fn marked(t: Trb, cycle: u32) -> Trb {
    Trb { w3: (t.w3 & !1u32) | cycle, ..t }
}

/// The request at the end of a ring that leads back to its start.
pub open spec fn link(phys: u64) -> Trb {
    Trb { w0: phys as u32, w1: (phys >> 32) as u32, w2: 0, w3: (TRB_LINK << 10) | 2 | 1 }
}

/// A ring of requests for the controller to read.
pub struct Ring {
    trbs: Vec<Trb>,
    phys: u64,
    idx: usize,
    cycle: u32,
}

#[verifier::ext_equal]
pub struct Rv {
    pub trbs: Seq<Trb>,
    pub phys: u64,
    pub idx: usize,
    pub cycle: u32,
}

impl View for Ring {
    type V = Rv;

    closed spec fn view(&self) -> Rv {
        Rv { trbs: self.trbs@, phys: self.phys, idx: self.idx, cycle: self.cycle }
    }
}

/// The ring's requests before its place carry the current cycle bit, and those
/// from there on do not: the controller reads just what was pushed.
pub open spec fn ring_sound(r: Rv) -> bool {
    &&& r.trbs.len() == RING_TRBS
    &&& r.idx < RING_TRBS - 1
    &&& r.cycle == 0 || r.cycle == 1
    &&& forall|i: int| 0 <= i < r.idx ==> (#[trigger] r.trbs[i]).w3 & 1 == r.cycle
    &&& forall|i: int| r.idx <= i < RING_TRBS - 1 ==> (#[trigger] r.trbs[i]).w3 & 1 != r.cycle
}

pub open spec fn zero_trb() -> Trb {
    Trb { w0: 0, w1: 0, w2: 0, w3: 0 }
}

/// A fresh ring in the zeroed frame at `phys`.
pub open spec fn ring_new(phys: u64) -> Rv {
    Rv {
        trbs: Seq::new(255, |i: int| zero_trb()).push(link(phys)),
        phys,
        idx: 0,
        cycle: 1,
    }
}

/// A request pushed. Behind the last place the link is handed over too, and
/// the cycle turns.
pub open spec fn pushed(r: Rv, t: Trb) -> Rv {
    let a = r.trbs.update(r.idx as int, marked(t, r.cycle));
    if r.idx + 1 == RING_TRBS - 1 {
        Rv { trbs: a.update(255, marked(a[255], r.cycle)), idx: 0, cycle: r.cycle ^ 1, ..r }
    } else {
        Rv { trbs: a, idx: (r.idx + 1) as usize, ..r }
    }
}

proof fn lemma_marked(t: Trb, cycle: u32)
    requires
        cycle == 0 || cycle == 1,
    ensures
        marked(t, cycle).w3 & 1 == cycle,
{
    let w = t.w3;
    assert(((w & !1u32) | cycle) & 1 == cycle) by (bit_vector)
        requires
            cycle == 0 || cycle == 1,
    ;
}

/// Pushing keeps the ring readable.
pub proof fn law_push_keeps_the_ring(r: Rv, t: Trb)
    requires
        ring_sound(r),
    ensures
        ring_sound(pushed(r, t)),
{
    let n = pushed(r, t);
    lemma_marked(t, r.cycle);
    let c = r.cycle;
    assert((c ^ 1 == 0 || c ^ 1 == 1) && c ^ 1 != c) by (bit_vector)
        requires
            c == 0 || c == 1,
    ;
    assert forall|i: int| 0 <= i < RING_TRBS - 1 && i != r.idx implies #[trigger] n.trbs[i]
        == r.trbs[i] by {}
    assert(n.trbs[r.idx as int] == marked(t, r.cycle));
}

impl Ring {
    pub fn new(phys: u64) -> (r: Ring)
        ensures
            r@ == ring_new(phys),
            ring_sound(r@),
    {
        let mut trbs: Vec<Trb> = Vec::new();
        let mut i: usize = 0;
        while i < 255
            invariant
                i <= 255,
                trbs@ == Seq::new(i as nat, |j: int| zero_trb()),
            decreases 255 - i,
        {
            trbs.push(Trb { w0: 0, w1: 0, w2: 0, w3: 0 });
            i = i + 1;
            assert(trbs@ =~= Seq::new(i as nat, |j: int| zero_trb()));
        }
        trbs.push(
            Trb { w0: phys as u32, w1: (phys >> 32) as u32, w2: 0, w3: (TRB_LINK << 10) | 2 | 1 },
        );
        let r = Ring { trbs, phys, idx: 0, cycle: 1 };
        assert(0u32 & 1 != 1) by (bit_vector);
        assert(r@ =~= ring_new(phys));
        r
    }

    /// Push a request; the places to copy into shared memory.
    pub fn push(&mut self, t: Trb) -> (r: (usize, bool))
        requires
            ring_sound(old(self)@),
        ensures
            ring_sound(final(self)@),
            final(self)@ == pushed(old(self)@, t),
            r.0 == old(self)@.idx,
            r.1 == (old(self)@.idx == RING_TRBS - 2),
    {
        proof {
            law_push_keeps_the_ring(self@, t);
        }
        let at: usize = self.idx;
        let cycle: u32 = self.cycle;
        self.trbs.set(at, Trb { w0: t.w0, w1: t.w1, w2: t.w2, w3: (t.w3 & !1u32) | cycle });
        if at + 1 == RING_TRBS - 1 {
            let l: Trb = self.trbs[255];
            self.trbs.set(255, Trb { w0: l.w0, w1: l.w1, w2: l.w2, w3: (l.w3 & !1u32) | cycle });
            self.idx = 0;
            self.cycle = cycle ^ 1;
            assert(self@ =~= pushed(old(self)@, t));
            (at, true)
        } else {
            self.idx = at + 1;
            assert(self@ =~= pushed(old(self)@, t));
            (at, false)
        }
    }

    /// The request at a place, as the controller has to find it.
    pub fn at(&self, i: usize) -> (r: Trb)
        requires
            ring_sound(self@),
            i < RING_TRBS,
        ensures
            r == self@.trbs[i as int],
    {
        self.trbs[i]
    }

    pub fn phys(&self) -> (r: u64)
        ensures
            r == self@.phys,
    {
        self.phys
    }
}

/// Where the events are read.
#[derive(Clone, Copy)]
pub struct EventRing {
    pub phys: u64,
    pub idx: usize,
    pub cycle: u32,
}

impl EventRing {
    pub open spec fn wf(self) -> bool {
        self.idx < RING_TRBS && self.phys <= 0xFFFF_FFFF_FFFF_0000 && (self.cycle == 0
            || self.cycle == 1)
    }

    /// The ring after one event.
    pub open spec fn advanced(self) -> EventRing {
        if self.idx + 1 == RING_TRBS {
            EventRing { idx: 0, cycle: self.cycle ^ 1, ..self }
        } else {
            EventRing { idx: (self.idx + 1) as usize, ..self }
        }
    }

    /// Look at what lies at the current place. An event that is new is taken:
    /// what to write to the dequeue register.
    pub fn poll(&mut self, t: &Trb) -> (r: Option<(u32, u32)>)
        requires
            old(self).wf(),
        ensures
            final(self).wf(),
            if t.w3 & 1 == old(self).cycle {
                let at = (old(self).phys + old(self).advanced().idx * 16) as u64;
                &&& *final(self) == old(self).advanced()
                &&& r == Some((at as u32 | 8, (at >> 32) as u32))
            } else {
                r is None && *final(self) == *old(self)
            },
    {
        let cycle: u32 = self.cycle;
        assert(cycle ^ 1 == 0 || cycle ^ 1 == 1) by (bit_vector)
            requires
                cycle == 0 || cycle == 1,
        ;
        if t.w3 & 1 != cycle {
            return None;
        }
        if self.idx + 1 == RING_TRBS {
            self.idx = 0;
            self.cycle = cycle ^ 1;
        } else {
            self.idx = self.idx + 1;
        }
        let at: u64 = self.phys + self.idx as u64 * 16;
        Some((at as u32 | 8, (at >> 32) as u32))
    }
}

// --- registers ---

/// An access to a register, by its address.
#[derive(Clone, Copy, PartialEq, Eq, Debug, Structural)]
pub enum Op {
    Write(u64, u32),
    ClearBits(u64, u32),
    /// Read until these bits are clear.
    WaitClear(u64, u32),
    /// Read until these bits are set.
    WaitSet(u64, u32),
    /// The same, but give up after this many tries.
    TrySet(u64, u32, u32),
    /// Write the value read, without the first bits and with the second.
    Modify(u64, u32, u32),
}

/// Where the parts of the register file are, and how much the controller
/// offers.
#[derive(Clone, Copy)]
pub struct Layout {
    pub op: u64,
    pub db: u64,
    pub ir0: u64,
    pub max_slots: u32,
    pub max_ports: u32,
}

/// The layout that the capability registers at `base` describe.
pub open spec fn layout_of(base: u64, cap: u32, hcs1: u32, dboff: u32, rtsoff: u32) -> Layout {
    Layout {
        op: (base + (cap & 0xFF)) as u64,
        db: (base + (dboff & !3u32)) as u64,
        ir0: (base + (rtsoff & !0x1Fu32) + 0x20) as u64,
        max_slots: hcs1 & 0xFF,
        max_ports: (hcs1 >> 24) & 0xFF,
    }
}

pub fn read_layout(base: u64, cap: u32, hcs1: u32, dboff: u32, rtsoff: u32) -> (r: Layout)
    requires
        base <= 0xFFFF_FFF0_0000_0000,
    ensures
        r == layout_of(base, cap, hcs1, dboff, rtsoff),
        r.max_ports <= 255,
        r.op <= base + 255,
{
    assert(cap & 0xFF <= 255) by (bit_vector);
    assert((hcs1 >> 24) & 0xFF <= 255) by (bit_vector);
    Layout {
        op: base + (cap & 0xFF) as u64,
        db: base + (dboff & !3u32) as u64,
        ir0: base + (rtsoff & !0x1Fu32) as u64 + 0x20,
        max_slots: hcs1 & 0xFF,
        max_ports: (hcs1 >> 24) & 0xFF,
    }
}

/// The write that lets the controller reach memory, made wherever there is a
/// controller, and where its registers are.
pub fn probe(cfg: &Config) -> (r: (Option<ConfigWrite>, Result<u64, &'static str>))
    requires
        cfg.wf(),
    ensures
        match pci::class_from(cfg@, (0x0C, 0x03, 0x30), 0, 0) {
            None => r.0 is None && r.1 == Err::<u64, &'static str>("no xHCI controller"),
            Some(loc) => {
                &&& r.0 matches Some(w) && w.addr == pci::address(loc, 0x04) && w.value == (pci::half(
                    cfg@,
                    loc,
                    0x04,
                ) | 0b110) as u32
                &&& r.1 == if pci::base_of(cfg@, loc, 0) == 0 {
                    Err::<u64, &'static str>("xHCI BAR0 is zero")
                } else {
                    Ok(pci::base_of(cfg@, loc, 0))
                }
            },
        },
{
    let loc = match cfg.find_xhci() {
        Some(l) => l,
        None => { return (None, Err("no xHCI controller")); },
    };
    let w = cfg.enable_bus_master(loc);
    let bar: u64 = cfg.bar(loc, 0);
    if bar == 0 {
        return (Some(w), Err("xHCI BAR0 is zero"));
    }
    (Some(w), Ok(bar))
}

/// The layout leaves room for every register that is used.
pub open spec fn roomy(l: Layout) -> bool {
    &&& l.op <= 0xFFFF_FFFF_FFFF_0000
    &&& l.ir0 <= 0xFFFF_FFFF_FFFF_0000
    &&& l.max_ports <= 255
}

/// Stop the controller, reset it, and allow all its slots.
pub open spec fn reset_ops(l: Layout) -> Seq<Op> {
    let cmd = (l.op + OP_USBCMD) as u64;
    let sts = (l.op + OP_USBSTS) as u64;
    seq![
        Op::WaitClear(sts, USBSTS_CNR),
        Op::ClearBits(cmd, USBCMD_RUN),
        Op::WaitSet(sts, USBSTS_HCH),
        Op::Write(cmd, USBCMD_HCRST),
        Op::WaitClear(cmd, USBCMD_HCRST),
        Op::WaitClear(sts, USBSTS_CNR),
        Op::Write((l.op + OP_CONFIG) as u64, l.max_slots),
    ]
}

pub fn reset(l: &Layout) -> (r: [Op; 7])
    requires
        roomy(*l),
    ensures
        r@ == reset_ops(*l),
{
    let cmd: u64 = l.op + OP_USBCMD;
    let sts: u64 = l.op + OP_USBSTS;
    let r: [Op; 7] = [
        Op::WaitClear(sts, USBSTS_CNR),
        Op::ClearBits(cmd, USBCMD_RUN),
        Op::WaitSet(sts, USBSTS_HCH),
        Op::Write(cmd, USBCMD_HCRST),
        Op::WaitClear(cmd, USBCMD_HCRST),
        Op::WaitClear(sts, USBSTS_CNR),
        Op::Write(l.op + OP_CONFIG, l.max_slots),
    ];
    assert(r@ =~= reset_ops(*l));
    r
}

/// Both halves of an address, one after the other.
pub open spec fn wide(at: int, v: u64) -> Seq<Op> {
    seq![Op::Write(at as u64, v as u32), Op::Write((at + 4) as u64, (v >> 32) as u32)]
}

/// Point the controller at its memory and let it run.
pub open spec fn start_ops(l: Layout, dcbaa: u64, cmd: u64, evt: u64, erst: u64) -> Seq<Op> {
    wide(l.op + OP_DCBAAP, dcbaa) + wide(l.op + OP_CRCR, cmd | 1) + seq![
        Op::Write((l.ir0 + 0x08) as u64, 1),
    ] + wide(l.ir0 + 0x10, erst) + wide(l.ir0 + 0x18, evt) + seq![
        Op::Write((l.op + OP_USBCMD) as u64, USBCMD_RUN),
        Op::WaitClear((l.op + OP_USBSTS) as u64, USBSTS_HCH),
    ]
}

pub fn start(l: &Layout, dcbaa: u64, cmd: u64, evt: u64, erst: u64) -> (r: [Op; 11])
    requires
        roomy(*l),
    ensures
        r@ == start_ops(*l, dcbaa, cmd, evt, erst),
{
    let crcr: u64 = cmd | 1;
    let r: [Op; 11] = [
        Op::Write(l.op + OP_DCBAAP, dcbaa as u32),
        Op::Write(l.op + OP_DCBAAP + 4, (dcbaa >> 32) as u32),
        Op::Write(l.op + OP_CRCR, crcr as u32),
        Op::Write(l.op + OP_CRCR + 4, (crcr >> 32) as u32),
        Op::Write(l.ir0 + 0x08, 1),
        Op::Write(l.ir0 + 0x10, erst as u32),
        Op::Write(l.ir0 + 0x10 + 4, (erst >> 32) as u32),
        Op::Write(l.ir0 + 0x18, evt as u32),
        Op::Write(l.ir0 + 0x18 + 4, (evt >> 32) as u32),
        Op::Write(l.op + OP_USBCMD, USBCMD_RUN),
        Op::WaitClear(l.op + OP_USBSTS, USBSTS_HCH),
    ];
    assert(r@ =~= start_ops(*l, dcbaa, cmd, evt, erst));
    r
}

/// The one segment of the event ring, as its table names it.
pub fn event_segment(evt: u64) -> (r: [u32; 4])
    ensures
        r@ == seq![evt as u32, (evt >> 32) as u32, RING_TRBS as u32, 0u32],
{
    let r: [u32; 4] = [evt as u32, (evt >> 32) as u32, RING_TRBS as u32, 0];
    assert(r@ =~= seq![evt as u32, (evt >> 32) as u32, RING_TRBS as u32, 0u32]);
    r
}

/// The first port from `i` on with something connected, counted from 1.
pub open spec fn port_from(portsc: Seq<u32>, i: int) -> Option<u32>
    decreases portsc.len() - i,
{
    if i >= portsc.len() {
        None
    } else if portsc[i] & PORTSC_CCS != 0 {
        Some((i + 1) as u32)
    } else {
        port_from(portsc, i + 1)
    }
}

/// The first port with something connected, by the status of each.
pub fn first_port(portsc: &[u32]) -> (r: Result<u32, &'static str>)
    requires
        portsc@.len() <= 255,
    ensures
        r == match port_from(portsc@, 0) {
            Some(p) => Ok::<u32, &'static str>(p),
            None => Err("no device on any xHCI port"),
        },
        r is Ok ==> 1 <= r->Ok_0 <= 255,
{
    let n: usize = portsc.len();
    let mut i: usize = 0;
    while i < n
        invariant
            i <= n,
            n == portsc@.len(),
            n <= 255,
            port_from(portsc@, 0) == port_from(portsc@, i as int),
        decreases n - i,
    {
        if portsc[i] & PORTSC_CCS != 0 {
            return Ok((i + 1) as u32);
        }
        i = i + 1;
    }
    Err("no device on any xHCI port")
}

/// Where a port's status register is.
pub open spec fn portsc_at(l: Layout, port: u32) -> u64 {
    (l.op + OP_PORTSC_BASE + (port - 1) * 0x10) as u64
}

pub fn port_reg(l: &Layout, port: u32) -> (r: u64)
    requires
        roomy(*l),
        1 <= port <= 255,
    ensures
        r == portsc_at(*l, port),
{
    l.op + OP_PORTSC_BASE + (port as u64 - 1) * 0x10
}

/// Reset a port that is not enabled yet; nothing to do for one that is.
pub fn reset_port(l: &Layout, port: u32, portsc: u32) -> (r: Option<[Op; 3]>)
    requires
        roomy(*l),
        1 <= port <= 255,
    ensures
        if portsc & PORTSC_PED != 0 {
            r is None
        } else {
            let at = portsc_at(*l, port);
            r is Some && r->0@ == seq![
                Op::Modify(at, PORTSC_RW1CS, PORTSC_PR),
                Op::TrySet(at, PORTSC_PRC, 20_000_000),
                Op::Modify(at, PORTSC_RW1CS, PORTSC_PRC),
            ]
        },
{
    if portsc & PORTSC_PED != 0 {
        return None;
    }
    let at: u64 = port_reg(l, port);
    let r: [Op; 3] = [
        Op::Modify(at, PORTSC_RW1CS, PORTSC_PR),
        Op::TrySet(at, PORTSC_PRC, 20_000_000),
        Op::Modify(at, PORTSC_RW1CS, PORTSC_PRC),
    ];
    assert(r@ =~= seq![
        Op::Modify(at, PORTSC_RW1CS, PORTSC_PR),
        Op::TrySet(at, PORTSC_PRC, 20_000_000),
        Op::Modify(at, PORTSC_RW1CS, PORTSC_PRC),
    ]);
    Some(r)
}

/// The value a `Modify` writes.
pub fn modified(value: u32, clear: u32, set: u32) -> (r: u32)
    ensures
        r == (value & !clear) | set,
{
    (value & !clear) | set
}

/// The speed in a port's status.
pub open spec fn speed_of(portsc: u32) -> u32 {
    (portsc >> 10) & 0xF
}

/// The largest packet of the control endpoint at a speed.
pub open spec fn packet_of(speed: u32) -> u32 {
    if speed == 4 {
        64
    } else if speed == 5 {
        512
    } else {
        8
    }
}

// --- contexts ---

/// `v` in word `i`.
pub open spec fn set(w: Seq<u32>, i: int, v: u32) -> Seq<u32> {
    w.update(i, v)
}

pub open spec fn zero_words() -> Seq<u32> {
    Seq::new(1024, |i: int| 0u32)
}

/// The input that gives a device its address: the slot and the control
/// endpoint.
pub open spec fn address_input(speed: u32, port: u32, packet: u32, ep0: u64) -> Seq<u32> {
    let w = set(zero_words(), 1, 3);
    let w = set(w, 8, (1u32 << 27) | (speed << 20));
    let w = set(w, 9, port << 16);
    let w = set(w, 17, (4u32 << 3) | (packet << 16) | (3u32 << 1));
    let w = set(w, 18, ep0 as u32 | 1);
    set(w, 19, (ep0 >> 32) as u32)
}

/// The input that adds the keyboard's endpoint.
pub open spec fn endpoint_input(speed: u32, port: u32, kbd: u64) -> Seq<u32> {
    let w = set(zero_words(), 1, 1u32 | (1u32 << KBD_EP_DCI));
    let w = set(w, 8, (KBD_EP_DCI << 27) | (speed << 20));
    let w = set(w, 9, port << 16);
    let w = set(w, 33, (7u32 << 3) | (8u32 << 16) | (3u32 << 1));
    let w = set(w, 34, kbd as u32 | 1);
    let w = set(w, 35, (kbd >> 32) as u32);
    set(w, 36, 8)
}

fn zeros() -> (r: Vec<u32>)
    ensures
        r@ == zero_words(),
{
    let mut r: Vec<u32> = Vec::new();
    let mut i: usize = 0;
    while i < 1024
        invariant
            i <= 1024,
            r@ == Seq::new(i as nat, |j: int| 0u32),
        decreases 1024 - i,
    {
        r.push(0);
        i = i + 1;
        assert(r@ =~= Seq::new(i as nat, |j: int| 0u32));
    }
    r
}

fn address_context(speed: u32, port: u32, packet: u32, ep0: u64) -> (r: Vec<u32>)
    ensures
        r@ == address_input(speed, port, packet, ep0),
{
    let mut w = zeros();
    w.set(1, 3);
    w.set(8, (1u32 << 27) | (speed << 20));
    w.set(9, port << 16);
    w.set(17, (4u32 << 3) | (packet << 16) | (3u32 << 1));
    w.set(18, ep0 as u32 | 1);
    w.set(19, (ep0 >> 32) as u32);
    w
}

fn endpoint_context(speed: u32, port: u32, kbd: u64) -> (r: Vec<u32>)
    ensures
        r@ == endpoint_input(speed, port, kbd),
{
    let mut w = zeros();
    w.set(1, 1u32 | (1u32 << KBD_EP_DCI));
    w.set(8, (KBD_EP_DCI << 27) | (speed << 20));
    w.set(9, port << 16);
    w.set(33, (7u32 << 3) | (8u32 << 16) | (3u32 << 1));
    w.set(34, kbd as u32 | 1);
    w.set(35, (kbd >> 32) as u32);
    w.set(36, 8);
    w
}

/// The eight bytes of a control request.
pub open spec fn request(bm: u8, breq: u8, wval: u16, widx: u16, wlen: u16) -> Seq<u8> {
    seq![bm, breq] + bytes::bytes16(wval) + bytes::bytes16(widx) + bytes::bytes16(wlen)
}

/// A control request.
pub fn setup(bm: u8, breq: u8, wval: u16, widx: u16, wlen: u16) -> (r: Vec<u8>)
    ensures
        r@ == request(bm, breq, wval, widx, wlen),
{
    let mut r: Vec<u8> = vec![bm, breq];
    assert(r@ =~= seq![bm, breq]);
    let a = crate::bytes::to_bytes16(wval);
    let b = crate::bytes::to_bytes16(widx);
    let c = crate::bytes::to_bytes16(wlen);
    crate::bytes::extend(&mut r, a.as_slice());
    crate::bytes::extend(&mut r, b.as_slice());
    crate::bytes::extend(&mut r, c.as_slice());
    r
}

/// The requests of a control transfer: the request, the data where there is
/// some to come in, and the status.
pub open spec fn controlled(r: Rv, req: Seq<u8>, data: u64, len: u16) -> Rv {
    let s = bytes::le64(req, 0);
    let trt = if len > 0 {
        3u32
    } else {
        0
    };
    let a = pushed(
        r,
        Trb {
            w0: s as u32,
            w1: (s >> 32) as u32,
            w2: 8,
            w3: (TRB_SETUP << 10) | (1u32 << 6) | (trt << 16),
        },
    );
    let b = if len > 0 {
        pushed(
            a,
            Trb {
                w0: data as u32,
                w1: (data >> 32) as u32,
                w2: len as u32,
                w3: (TRB_DATA << 10) | (1u32 << 16),
            },
        )
    } else {
        a
    };
    let dir = if len > 0 {
        0u32
    } else {
        1
    };
    pushed(
        b,
        Trb { w0: 0, w1: 0, w2: 0, w3: (TRB_STATUS << 10) | (dir << 16) | (1u32 << 5) },
    )
}

fn control(ring: &mut Ring, req: &[u8], data: u64, len: u16)
    requires
        ring_sound(old(ring)@),
        req@.len() == 8,
    ensures
        ring_sound(final(ring)@),
        final(ring)@ == controlled(old(ring)@, req@, data, len),
{
    let s: u64 = crate::bytes::load64(req, 0);
    let trt: u32 = if len > 0 { 3 } else { 0 };
    let _at = ring.push(
        Trb {
            w0: s as u32,
            w1: (s >> 32) as u32,
            w2: 8,
            w3: (TRB_SETUP << 10) | (1u32 << 6) | (trt << 16),
        },
    );
    if len > 0 {
        let _at = ring.push(
            Trb {
                w0: data as u32,
                w1: (data >> 32) as u32,
                w2: len as u32,
                w3: (TRB_DATA << 10) | (1u32 << 16),
            },
        );
    }
    let dir: u32 = if len > 0 { 0 } else { 1 };
    let _at = ring.push(
        Trb { w0: 0, w1: 0, w2: 0, w3: (TRB_STATUS << 10) | (dir << 16) | (1u32 << 5) },
    );
}

// --- bringing the keyboard up ---

/// What the controller was asked for last.
#[derive(Clone, Copy, PartialEq, Eq, Debug, Structural)]
pub enum Stage {
    Begin,
    EnableSlot,
    AddressDevice,
    SetConfiguration,
    ConfigureEndpoint,
    SetProtocol,
    SetIdle,
    Up,
}

/// A controller with a keyboard at one of its ports.
pub struct Xhci {
    pub stage: Stage,
    pub slot: u8,
    pub port: u32,
    pub speed: u32,
    pub input_phys: u64,
    pub kbd_buf_phys: u64,
    pub cmd: Ring,
    pub ep0: Ring,
    pub kbd: Ring,
}

#[verifier::ext_equal]
pub struct Xv {
    pub stage: Stage,
    pub slot: u8,
    pub port: u32,
    pub speed: u32,
    pub input_phys: u64,
    pub kbd_buf_phys: u64,
    pub cmd: Rv,
    pub ep0: Rv,
    pub kbd: Rv,
}

impl View for Xhci {
    type V = Xv;

    open spec fn view(&self) -> Xv {
        Xv {
            stage: self.stage,
            slot: self.slot,
            port: self.port,
            speed: self.speed,
            input_phys: self.input_phys,
            kbd_buf_phys: self.kbd_buf_phys,
            cmd: self.cmd@,
            ep0: self.ep0@,
            kbd: self.kbd@,
        }
    }
}

/// What to do next: store the input context, enter the device's context under
/// its slot, ring a doorbell, and wait for an event of this kind; 0 waits for
/// none.
pub struct Action {
    pub input: Option<Vec<u32>>,
    pub enter_device: bool,
    pub doorbell: (u8, u32),
    pub wait: u32,
}

#[verifier::ext_equal]
pub struct Av {
    pub input: Option<Seq<u32>>,
    pub enter_device: bool,
    pub doorbell: (u8, u32),
    pub wait: u32,
}

impl View for Action {
    type V = Av;

    open spec fn view(&self) -> Av {
        Av {
            input: match self.input {
                Some(w) => Some(w@),
                None => None,
            },
            enter_device: self.enter_device,
            doorbell: self.doorbell,
            wait: self.wait,
        }
    }
}

/// A command on the input context for the slot.
pub open spec fn on_input(x: Xv, kind: u32) -> Trb {
    Trb {
        w0: x.input_phys as u32,
        w1: (x.input_phys >> 32) as u32,
        w2: 0,
        w3: (kind << 10) | ((x.slot as u32) << 24),
    }
}

/// A control request sent to the device, and the stage that waits for it.
pub open spec fn asked(x: Xv, req: Seq<u8>, stage: Stage) -> (Xv, Av) {
    (
        Xv { ep0: controlled(x.ep0, req, 0, 0), stage, ..x },
        Av {
            input: None,
            enter_device: false,
            doorbell: (x.slot, EP0_DCI),
            wait: TRB_EV_TRANSFER,
        },
    )
}

/// The keyboard's next report asked for.
pub open spec fn armed(x: Xv) -> Xv {
    Xv {
        kbd: pushed(
            x.kbd,
            Trb {
                w0: x.kbd_buf_phys as u32,
                w1: (x.kbd_buf_phys >> 32) as u32,
                w2: 8,
                w3: (TRB_NORMAL << 10) | (1u32 << 5),
            },
        ),
        ..x
    }
}

/// The next step, given the event that answered the last one, or nothing where
/// none came in time.
pub open spec fn stepped(x: Xv, ev: Option<Trb>) -> Result<(Xv, Av), &'static str> {
    match x.stage {
        Stage::Begin => Ok(
            (
                Xv {
                    cmd: pushed(x.cmd, Trb { w0: 0, w1: 0, w2: 0, w3: TRB_ENABLE_SLOT << 10 }),
                    stage: Stage::EnableSlot,
                    ..x
                },
                Av {
                    input: None,
                    enter_device: false,
                    doorbell: (0, 0),
                    wait: TRB_EV_CMD_COMPLETE,
                },
            ),
        ),
        Stage::EnableSlot => match ev {
            None => Err("Enable Slot timeout"),
            Some(e) => {
                let slot = ((e.w3 >> 24) & 0xFF) as u8;
                if slot == 0 || (e.w2 >> 24) & 0xFF != 1 {
                    Err("Enable Slot failed")
                } else {
                    let y = Xv { slot, ..x };
                    Ok(
                        (
                            Xv {
                                cmd: pushed(y.cmd, on_input(y, TRB_ADDRESS_DEVICE)),
                                stage: Stage::AddressDevice,
                                ..y
                            },
                            Av {
                                input: Some(
                                    address_input(
                                        x.speed,
                                        x.port,
                                        packet_of(x.speed),
                                        x.ep0.phys,
                                    ),
                                ),
                                enter_device: true,
                                doorbell: (0, 0),
                                wait: TRB_EV_CMD_COMPLETE,
                            },
                        ),
                    )
                }
            },
        },
        Stage::AddressDevice => match ev {
            None => Err("Address Device timeout"),
            Some(_) => Ok(asked(x, request(0x00, 0x09, 1, 0, 0), Stage::SetConfiguration)),
        },
        Stage::SetConfiguration => match ev {
            None => Err("Set Config failed"),
            Some(_) => Ok(
                (
                    Xv {
                        cmd: pushed(x.cmd, on_input(x, TRB_CONFIGURE_ENDPOINT)),
                        stage: Stage::ConfigureEndpoint,
                        ..x
                    },
                    Av {
                        input: Some(endpoint_input(x.speed, x.port, x.kbd.phys)),
                        enter_device: false,
                        doorbell: (0, 0),
                        wait: TRB_EV_CMD_COMPLETE,
                    },
                ),
            ),
        },
        Stage::ConfigureEndpoint => match ev {
            None => Err("Configure Endpoint timeout"),
            Some(_) => Ok(asked(x, request(0x21, 0x0B, 0, 0, 0), Stage::SetProtocol)),
        },
        Stage::SetProtocol => Ok(asked(x, request(0x21, 0x0A, 0, 0, 0), Stage::SetIdle)),
        _ => Ok(
            (
                Xv { stage: Stage::Up, ..armed(x) },
                Av {
                    input: None,
                    enter_device: false,
                    doorbell: (x.slot, KBD_EP_DCI),
                    wait: 0,
                },
            ),
        ),
    }
}

impl Xhci {
    pub open spec fn wf(self) -> bool {
        ring_sound(self.cmd@) && ring_sound(self.ep0@) && ring_sound(self.kbd@)
    }

    /// A controller whose rings, contexts and report buffer lie in these
    /// frames, and the port of the device.
    pub fn new(
        port: u32,
        portsc: u32,
        cmd: Ring,
        ep0_phys: u64,
        kbd_phys: u64,
        input_phys: u64,
        kbd_buf_phys: u64,
    ) -> (r: Xhci)
        requires
            ring_sound(cmd@),
        ensures
            r.wf(),
            r@ == (Xv {
                stage: Stage::Begin,
                slot: 0,
                port,
                speed: speed_of(portsc),
                input_phys,
                kbd_buf_phys,
                cmd: cmd@,
                ep0: ring_new(ep0_phys),
                kbd: ring_new(kbd_phys),
            }),
    {
        Xhci {
            stage: Stage::Begin,
            slot: 0,
            port,
            speed: (portsc >> 10) & 0xF,
            input_phys,
            kbd_buf_phys,
            cmd,
            ep0: Ring::new(ep0_phys),
            kbd: Ring::new(kbd_phys),
        }
    }

    fn command(&mut self, kind: u32)
        requires
            old(self).wf(),
            kind < 64,
        ensures
            final(self).wf(),
            final(self)@ == (Xv {
                cmd: pushed(old(self)@.cmd, on_input(old(self)@, kind)),
                ..old(self)@
            }),
    {
        let t = Trb {
            w0: self.input_phys as u32,
            w1: (self.input_phys >> 32) as u32,
            w2: 0,
            w3: (kind << 10) | ((self.slot as u32) << 24),
        };
        let _at = self.cmd.push(t);
    }

    fn ask(&mut self, bm: u8, breq: u8, wval: u16, stage: Stage) -> (r: Action)
        requires
            old(self).wf(),
        ensures
            final(self).wf(),
            (final(self)@, r@) == asked(old(self)@, request(bm, breq, wval, 0, 0), stage),
    {
        let req = setup(bm, breq, wval, 0, 0);
        control(&mut self.ep0, req.as_slice(), 0, 0);
        self.stage = stage;
        Action {
            input: None,
            enter_device: false,
            doorbell: (self.slot, EP0_DCI),
            wait: TRB_EV_TRANSFER,
        }
    }

    fn arm_kbd(&mut self)
        requires
            old(self).wf(),
        ensures
            final(self).wf(),
            final(self)@ == armed(old(self)@),
    {
        let t = Trb {
            w0: self.kbd_buf_phys as u32,
            w1: (self.kbd_buf_phys >> 32) as u32,
            w2: 8,
            w3: (TRB_NORMAL << 10) | (1u32 << 5),
        };
        let _at = self.kbd.push(t);
    }

    /// Take the next step of bringing the keyboard up.
    pub fn init(&mut self, ev: Option<Trb>) -> (r: Result<Action, &'static str>)
        requires
            old(self).wf(),
        ensures
            final(self).wf(),
            match stepped(old(self)@, ev) {
                Ok((x, a)) => r is Ok && final(self)@ == x && r->Ok_0@ == a,
                Err(e) => r == Err::<Action, &'static str>(e),
            },
    {
        match self.stage {
            Stage::Begin => {
                let _at = self.cmd.push(
                    Trb { w0: 0, w1: 0, w2: 0, w3: TRB_ENABLE_SLOT << 10 },
                );
                self.stage = Stage::EnableSlot;
                Ok(
                    Action {
                        input: None,
                        enter_device: false,
                        doorbell: (0, 0),
                        wait: TRB_EV_CMD_COMPLETE,
                    },
                )
            },
            Stage::EnableSlot => {
                let e: Trb = match ev {
                    Some(e) => e,
                    None => { return Err("Enable Slot timeout"); },
                };
                let slot: u8 = ((e.w3 >> 24) & 0xFF) as u8;
                if slot == 0 || (e.w2 >> 24) & 0xFF != 1 {
                    return Err("Enable Slot failed");
                }
                self.slot = slot;
                let packet: u32 = if self.speed == 4 {
                    64
                } else if self.speed == 5 {
                    512
                } else {
                    8
                };
                let input = address_context(self.speed, self.port, packet, self.ep0.phys());
                self.command(TRB_ADDRESS_DEVICE);
                self.stage = Stage::AddressDevice;
                Ok(
                    Action {
                        input: Some(input),
                        enter_device: true,
                        doorbell: (0, 0),
                        wait: TRB_EV_CMD_COMPLETE,
                    },
                )
            },
            Stage::AddressDevice => {
                if ev.is_none() {
                    return Err("Address Device timeout");
                }
                Ok(self.ask(0x00, 0x09, 1, Stage::SetConfiguration))
            },
            Stage::SetConfiguration => {
                if ev.is_none() {
                    return Err("Set Config failed");
                }
                let input = endpoint_context(self.speed, self.port, self.kbd.phys());
                self.command(TRB_CONFIGURE_ENDPOINT);
                self.stage = Stage::ConfigureEndpoint;
                Ok(
                    Action {
                        input: Some(input),
                        enter_device: false,
                        doorbell: (0, 0),
                        wait: TRB_EV_CMD_COMPLETE,
                    },
                )
            },
            Stage::ConfigureEndpoint => {
                if ev.is_none() {
                    return Err("Configure Endpoint timeout");
                }
                Ok(self.ask(0x21, 0x0B, 0, Stage::SetProtocol))
            },
            Stage::SetProtocol => Ok(self.ask(0x21, 0x0A, 0, Stage::SetIdle)),
            _ => {
                self.arm_kbd();
                self.stage = Stage::Up;
                Ok(
                    Action {
                        input: None,
                        enter_device: false,
                        doorbell: (self.slot, KBD_EP_DCI),
                        wait: 0,
                    },
                )
            },
        }
    }

    /// Whether an event carries a report of the keyboard; the next one is then
    /// asked for.
    pub fn poll_keyboard(&mut self, ev: &Trb) -> (r: bool)
        requires
            old(self).wf(),
        ensures
            final(self).wf(),
            r == (kind_of(*ev) == TRB_EV_TRANSFER),
            final(self)@ == if r {
                armed(old(self)@)
            } else {
                old(self)@
            },
    {
        if kind(ev) != TRB_EV_TRANSFER {
            return false;
        }
        self.arm_kbd();
        true
    }
}

/// With an answer to every request, and a slot granted, the keyboard is up
/// after the last step.
pub proof fn law_answered_requests_lead_up(x: Xv, ev: Trb)
    requires
        x.stage != Stage::EnableSlot || (((ev.w3 >> 24) & 0xFF) as u8 != 0 && (ev.w2 >> 24) & 0xFF
            == 1),
    ensures
        stepped(x, Some(ev)) matches Ok((y, _)) && y.stage == match x.stage {
            Stage::Begin => Stage::EnableSlot,
            Stage::EnableSlot => Stage::AddressDevice,
            Stage::AddressDevice => Stage::SetConfiguration,
            Stage::SetConfiguration => Stage::ConfigureEndpoint,
            Stage::ConfigureEndpoint => Stage::SetProtocol,
            Stage::SetProtocol => Stage::SetIdle,
            _ => Stage::Up,
        },
{
}

} // verus!
