//! The SATA controller: which port to use, what its commands look like, and
//! what its answers mean. The registers and the command memory are the
//! machine's; what goes into them is decided here.
use vstd::prelude::*;

use crate::bytes;
use crate::mm;
use crate::mm::FrameAllocator;
use crate::pci;
use crate::pci::{Config, ConfigWrite};

verus! {

pub const SECTOR: u64 = 512;

pub const GHC: u64 = 0x04;

pub const PI: u64 = 0x0C;

pub const GHC_AE: u32 = 0x8000_0000;

pub const PORT_BASE: u64 = 0x100;

pub const PORT_STRIDE: u64 = 0x80;

pub const P_CLB: u64 = 0x00;

pub const P_CLBU: u64 = 0x04;

pub const P_FB: u64 = 0x08;

pub const P_FBU: u64 = 0x0C;

pub const P_IS: u64 = 0x10;

pub const P_CMD: u64 = 0x18;

pub const P_TFD: u64 = 0x20;

pub const P_SIG: u64 = 0x24;

pub const P_SSTS: u64 = 0x28;

pub const P_SERR: u64 = 0x30;

pub const P_SACT: u64 = 0x34;

pub const P_CI: u64 = 0x38;

pub const CMD_ST: u32 = 0x1;

pub const CMD_FRE: u32 = 0x10;

pub const CMD_FR: u32 = 0x4000;

pub const CMD_CR: u32 = 0x8000;

pub const TFD_BSY: u32 = 0x80;

pub const TFD_DRQ: u32 = 0x08;

pub const TFD_ERR: u32 = 0x01;

pub const IS_TFES: u32 = 0x4000_0000;

pub const SIG_SATA: u32 = 0x0000_0101;

pub const FIS_TYPE_H2D: u8 = 0x27;

pub const CMD_READ_DMA_EX: u8 = 0x25;

pub const CMD_WRITE_DMA_EX: u8 = 0x35;

pub const CMD_READ_FPDMA: u8 = 0x60;

pub const CMD_WRITE_FPDMA: u8 = 0x61;

pub const CMD_FLUSH_CACHE_EX: u8 = 0xEA;

pub const CMD_IDENTIFY: u8 = 0xEC;

pub const MAX_TAGS: u8 = 32;

pub const POLL_LIMIT: u32 = 2_000_000;

pub const NOT_UP: &'static str = "AHCI not initialised";

/// An access to a register, by its offset.
#[derive(Clone, Copy, PartialEq, Eq, Debug, Structural)]
pub enum Op {
    Write(u64, u32),
    SetBits(u64, u32),
    /// Read once, and write the value with the first bits set, and then with the
    /// second ones set too.
    SetInTurn(u64, u32, u32),
    ClearBits(u64, u32),
    /// Read until these bits are clear, at most this many times.
    WaitClear(u64, u32, u32),
}

/// A disk behind the controller.
#[derive(Clone, Copy)]
pub struct Disk {
    pub port: u8,
    /// The frame of the command list and of what the disk sends.
    pub clb_phys: u64,
    /// Two frames of 16 command tables each.
    pub ctab_phys: [u64; 2],
    pub sectors: u64,
    /// How many commands can run at once; 1 where the disk does not queue.
    pub depth: u8,
}

/// Where the command table of a tag lies.
pub open spec fn table_at(d: Disk, tag: u8) -> int {
    d.ctab_phys@[(tag / 16) as int] + (tag % 16) * 0x100
}

/// The register of a port.
pub open spec fn port_reg(port: u8, off: u64) -> u64 {
    (PORT_BASE + port * PORT_STRIDE + off) as u64
}

pub fn reg(port: u8, off: u64) -> (r: u64)
    requires
        off < 0x80,
    ensures
        r == port_reg(port, off),
{
    PORT_BASE + port as u64 * PORT_STRIDE + off
}

// --- bring-up ---

/// The write that lets the controller reach memory, made wherever there is a
/// controller, and where its registers are.
pub fn probe(cfg: &Config) -> (r: (Option<ConfigWrite>, Result<u64, &'static str>))
    requires
        cfg.wf(),
    ensures
        match pci::class_from(cfg@, (0x01, 0x06, 0x01), 0, 0) {
            None => r.0 is None && r.1 == Err::<u64, &'static str>("no AHCI controller on bus 0"),
            Some(loc) => {
                &&& r.0 matches Some(w) && w.addr == pci::address(loc, 0x04) && w.value == (pci::half(
                    cfg@,
                    loc,
                    0x04,
                ) | 0b110) as u32
                &&& r.1 == if pci::base_of(cfg@, loc, 5) == 0 {
                    Err::<u64, &'static str>("AHCI BAR5 is zero")
                } else {
                    Ok(pci::base_of(cfg@, loc, 5))
                }
            },
        },
{
    let loc = match cfg.find_ahci() {
        Some(l) => l,
        None => { return (None, Err("no AHCI controller on bus 0")); },
    };
    let w = cfg.enable_bus_master(loc);
    let bar: u64 = cfg.bar(loc, 5);
    if bar == 0 {
        return (Some(w), Err("AHCI BAR5 is zero"));
    }
    (Some(w), Ok(bar))
}

/// A port's status and signature.
#[derive(Clone, Copy)]
pub struct PortRegs {
    pub ssts: u32,
    pub sig: u32,
}

/// A port that is there, has a link, and a disk at the other end.
pub open spec fn usable(pi: u32, p: PortRegs, i: u32) -> bool {
    pi & (1u32 << i) != 0 && p.ssts & 0x0F == 3 && p.sig == SIG_SATA
}

/// The first usable port from `i` on.
pub open spec fn port_from(pi: u32, ports: Seq<PortRegs>, i: int) -> Option<u8>
    decreases 32 - i,
{
    if i >= 32 {
        None
    } else if usable(pi, ports[i], i as u32) {
        Some(i as u8)
    } else {
        port_from(pi, ports, i + 1)
    }
}

/// The first port with a disk.
pub fn find_port(pi: u32, ports: &[PortRegs; 32]) -> (r: Result<u8, &'static str>)
    ensures
        r == match port_from(pi, ports@, 0) {
            Some(p) => Ok::<u8, &'static str>(p),
            None => Err("no SATA device on any implemented port"),
        },
        r is Ok ==> r->Ok_0 < 32,
{
    let mut i: u32 = 0;
    while i < 32
        invariant
            i <= 32,
            port_from(pi, ports@, 0) == port_from(pi, ports@, i as int),
        decreases 32 - i,
    {
        let p: PortRegs = ports[i as usize];
        if pi & (1u32 << i) != 0 && p.ssts & 0x0F == 3 && p.sig == SIG_SATA {
            return Ok(i as u8);
        }
        i = i + 1;
    }
    Err("no SATA device on any implemented port")
}

/// The register accesses that point a stopped port at its memory and start it.
pub open spec fn start_ops(port: u8, clb: u64) -> Seq<Op> {
    let fb = (clb + 0x400) as u64;
    seq![
        Op::Write(port_reg(port, P_CLB), clb as u32),
        Op::Write(port_reg(port, P_CLBU), (clb >> 32) as u32),
        Op::Write(port_reg(port, P_FB), fb as u32),
        Op::Write(port_reg(port, P_FBU), (fb >> 32) as u32),
        Op::Write(port_reg(port, P_SERR), 0xFFFF_FFFF),
        Op::Write(port_reg(port, P_IS), 0xFFFF_FFFF),
        Op::SetInTurn(port_reg(port, P_CMD), CMD_FRE, CMD_ST),
    ]
}

/// The frame that the free list gives out `k`-th.
pub open spec fn frame_of(free: Seq<u64>, k: int) -> u64 {
    mm::down(free[free.len() - 1 - k] as int, 4096) as u64
}

/// A port stopped, before its memory is given another place.
pub open spec fn stop_ops(port: u8) -> Seq<Op> {
    seq![
        Op::ClearBits(port_reg(port, P_CMD), CMD_ST | CMD_FRE),
        Op::WaitClear(port_reg(port, P_CMD), CMD_CR | CMD_FR, 1_000_000),
    ]
}

/// Plan the stop of a port. It comes first, whether or not there is memory for
/// the start.
pub fn stop_port(port: u8) -> (r: [Op; 2])
    requires
        port < 32,
    ensures
        r@ == stop_ops(port),
{
    let ops: [Op; 2] = [
        Op::ClearBits(reg(port, P_CMD), CMD_ST | CMD_FRE),
        Op::WaitClear(reg(port, P_CMD), CMD_CR | CMD_FR, 1_000_000),
    ];
    assert(ops@ =~= stop_ops(port));
    ops
}

/// Take the memory of a stopped port's commands, and plan its start. The frames
/// of an attempt that fails are not given back.
pub fn bring_up(port: u8, fa: &mut FrameAllocator) -> (r: Result<(Disk, [Op; 7]), &'static str>)
    requires
        port < 32,
    ensures
        ({
            let free = old(fa)@;
            if free.len() < 3 {
                &&& r == Err::<(Disk, [Op; 7]), &'static str>(
                    if free.len() == 0 {
                        "no frame for AHCI cmd list"
                    } else {
                        "no frame for AHCI cmd tables"
                    },
                )
                &&& final(fa)@ == Seq::<u64>::empty()
            } else {
                &&& r matches Ok((d, ops))
                &&& d.port == port
                &&& d.clb_phys == frame_of(free, 0)
                &&& d.ctab_phys@ == seq![frame_of(free, 1), frame_of(free, 2)]
                &&& d.sectors == 0
                &&& d.depth == 1
                &&& in_memory(d)
                &&& ops@ == start_ops(port, d.clb_phys)
                &&& final(fa)@ == free.take(free.len() - 3)
            }
        }),
{
    let clb: u64 = match fa.alloc_frame() {
        Some(f) => f,
        None => { return Err("no frame for AHCI cmd list"); },
    };
    assert(clb % 4096 == 0);
    let t0: u64 = match fa.alloc_frame() {
        Some(f) => f,
        None => { return Err("no frame for AHCI cmd tables"); },
    };
    let t1: u64 = match fa.alloc_frame() {
        Some(f) => f,
        None => { return Err("no frame for AHCI cmd tables"); },
    };
    assert(fa@ =~= old(fa)@.take(old(fa)@.len() - 3));
    let fb: u64 = clb + 0x400;
    let ops: [Op; 7] = [
        Op::Write(reg(port, P_CLB), clb as u32),
        Op::Write(reg(port, P_CLBU), (clb >> 32) as u32),
        Op::Write(reg(port, P_FB), fb as u32),
        Op::Write(reg(port, P_FBU), (fb >> 32) as u32),
        Op::Write(reg(port, P_SERR), 0xFFFF_FFFF),
        Op::Write(reg(port, P_IS), 0xFFFF_FFFF),
        Op::SetInTurn(reg(port, P_CMD), CMD_FRE, CMD_ST),
    ];
    assert(ops@ =~= start_ops(port, clb));
    let tabs: [u64; 2] = [t0, t1];
    assert(tabs@ =~= seq![frame_of(old(fa)@, 1), frame_of(old(fa)@, 2)]);
    Ok((Disk { port, clb_phys: clb, ctab_phys: tabs, sectors: 0, depth: 1 }, ops))
}

/// How many sectors a disk has, and how deep it queues, by what it says of
/// itself.
pub open spec fn identity(id: Seq<u8>) -> Result<(u64, u8), &'static str> {
    let s48 = bytes::le64(id, 200);
    let s28 = bytes::le32(id, 120) as u64;
    let sectors = if bytes::le16(id, 166) & 0x400 != 0 && s48 != 0 {
        s48
    } else {
        s28
    };
    let d = (bytes::le16(id, 150) & 0x1F) + 1;
    if sectors == 0 {
        Err("AHCI IDENTIFY: zero sector count")
    } else {
        Ok(
            (
                sectors,
                if bytes::le16(id, 152) & 0x100 == 0 {
                    1
                } else if d < 2 {
                    2
                } else {
                    d as u8
                },
            ),
        )
    }
}

/// Take in what the disk says of itself: the disk, and its free tags.
pub fn identified(disk: Disk, id: &[u8; 512]) -> (r: Result<(Disk, u32), &'static str>)
    ensures
        match identity(id@) {
            Err(e) => r == Err::<(Disk, u32), &'static str>(e),
            Ok((sectors, depth)) => r == Ok::<(Disk, u32), &'static str>(
                (Disk { sectors, depth, ..disk }, all_tags(depth)),
            ) && 1 <= depth <= MAX_TAGS,
        },
{
    let b = id.as_slice();
    let s48: u64 = crate::bytes::load64(b, 200);
    let s28: u64 = crate::bytes::load32(b, 120) as u64;
    let sectors: u64 = if crate::bytes::load16(b, 166) & 0x400 != 0 && s48 != 0 { s48 } else { s28 };
    if sectors == 0 {
        return Err("AHCI IDENTIFY: zero sector count");
    }
    let w: u16 = crate::bytes::load16(b, 150);
    assert(w & 0x1F <= 31) by (bit_vector);
    let d: u16 = (w & 0x1F) + 1;
    let depth: u8 = if crate::bytes::load16(b, 152) & 0x100 == 0 {
        1
    } else if d < 2 {
        2
    } else {
        d as u8
    };
    let mut out = disk;
    out.sectors = sectors;
    out.depth = depth;
    Ok((out, tags_of(depth)))
}

/// The name of the disk's model: pairs of characters, each swapped.
pub fn model_of(id: &[u8; 512]) -> (r: Vec<u8>)
    ensures
        r@ == Seq::new(
            40,
            |i: int|
                if i % 2 == 0 {
                    id@[54 + i + 1]
                } else {
                    id@[54 + i - 1]
                },
        ),
{
    let mut r: Vec<u8> = Vec::new();
    let mut i: usize = 0;
    while i < 20
        invariant
            i <= 20,
            r@ == Seq::new(
                (2 * i) as nat,
                |k: int|
                    if k % 2 == 0 {
                        id@[54 + k + 1]
                    } else {
                        id@[54 + k - 1]
                    },
            ),
        decreases 20 - i,
    {
        r.push(id[54 + i * 2 + 1]);
        r.push(id[54 + i * 2]);
        i = i + 1;
        assert(r@ =~= Seq::new(
            (2 * i) as nat,
            |k: int|
                if k % 2 == 0 {
                    id@[54 + k + 1]
                } else {
                    id@[54 + k - 1]
                },
        ));
    }
    r
}

/// The sectors of the disk; 0 while there is none.
pub fn capacity_sectors(disk: &Option<Disk>) -> (r: u64)
    ensures
        r == match *disk {
            Some(d) => d.sectors,
            None => 0,
        },
{
    match disk {
        Some(d) => d.sectors,
        None => 0,
    }
}

/// How many commands can run at once.
pub fn queue_depth(disk: &Option<Disk>) -> (r: u8)
    ensures
        r == match *disk {
            Some(d) => d.depth,
            None => 1,
        },
{
    match disk {
        Some(d) => d.depth,
        None => 1,
    }
}

// --- tags ---

/// One bit for each of `depth` tags.
pub open spec fn all_tags(depth: u8) -> u32 {
    ((1u64 << depth) - 1) as u32
}

fn tags_of(depth: u8) -> (r: u32)
    requires
        depth <= 32,
    ensures
        r == all_tags(depth),
{
    assert(1u64 << depth >= 1) by (bit_vector)
        requires
            depth <= 32,
    ;
    ((1u64 << depth) - 1) as u32
}

/// Tag `t` is free.
pub open spec fn is_free(free: u32, t: u8) -> bool {
    free & (1u32 << t) != 0
}

/// The lowest free tag from `t` on.
pub open spec fn tag_from(free: u32, t: int) -> Option<u8>
    decreases 32 - t,
{
    if t >= 32 {
        None
    } else if is_free(free, t as u8) {
        Some(t as u8)
    } else {
        tag_from(free, t + 1)
    }
}

/// Take the lowest free tag; nothing while all are in use.
pub fn alloc_tag(free: u32) -> (r: Option<(u8, u32)>)
    ensures
        match tag_from(free, 0) {
            Some(t) => r == Some((t, free & !(1u32 << t))) && t < 32,
            None => r is None,
        },
{
    let mut t: u8 = 0;
    while t < 32
        invariant
            t <= 32,
            tag_from(free, 0) == tag_from(free, t as int),
        decreases 32 - t,
    {
        if free & (1u32 << t) != 0 {
            return Some((t, free & !(1u32 << t)));
        }
        t = t + 1;
    }
    None
}

/// Give a tag back.
pub fn free_tag(free: u32, t: u8) -> (r: u32)
    requires
        t < 32,
    ensures
        r == free | (1u32 << t),
{
    free | (1u32 << t)
}

proof fn lemma_tag_from(free: u32, t: int)
    requires
        0 <= t,
    ensures
        match tag_from(free, t) {
            Some(k) => t <= k < 32 && is_free(free, k),
            None => true,
        },
    decreases 32 - t,
{
    if t < 32 && !is_free(free, t as u8) {
        lemma_tag_from(free, t + 1);
    }
}

/// A tag that was taken is in use until it is given back, and giving it back
/// restores the free tags; no other tag is touched.
pub proof fn law_tags_are_exclusive(free: u32, other: u8)
    requires
        tag_from(free, 0) is Some,
        other < 32,
    ensures
        ({
            let t = tag_from(free, 0)->0;
            let left = free & !(1u32 << t);
            &&& is_free(free, t)
            &&& !is_free(left, t)
            &&& left | (1u32 << t) == free
            &&& other != t ==> is_free(left, other) == is_free(free, other)
        }),
{
    lemma_tag_from(free, 0);
    let t = tag_from(free, 0)->0;
    assert(free & (1u32 << t) != 0 ==> (free & !(1u32 << t)) & (1u32 << t) == 0 && (free & !(1u32
        << t)) | (1u32 << t) == free && (other != t ==> ((free & !(1u32 << t)) & (1u32 << other)
        != 0) == (free & (1u32 << other) != 0))) by (bit_vector)
        requires
            t < 32,
            other < 32,
    ;
}

// --- commands ---

/// The first 20 bytes of a read or write command.
pub open spec fn transfer_fis(is_write: bool, ncq: bool, lba: u64, sectors: u16, tag: u8) -> Seq<u8> {
    Seq::new(
        20,
        |i: int|
            if i == 0 {
                FIS_TYPE_H2D
            } else if i == 1 {
                0x80
            } else if i == 2 {
                if ncq {
                    if is_write {
                        CMD_WRITE_FPDMA
                    } else {
                        CMD_READ_FPDMA
                    }
                } else {
                    if is_write {
                        CMD_WRITE_DMA_EX
                    } else {
                        CMD_READ_DMA_EX
                    }
                }
            } else if i == 3 && ncq {
                sectors as u8
            } else if i == 4 {
                lba as u8
            } else if i == 5 {
                (lba >> 8) as u8
            } else if i == 6 {
                (lba >> 16) as u8
            } else if i == 7 {
                if ncq && is_write {
                    0xC0u8
                } else {
                    0x40
                }
            } else if i == 8 {
                (lba >> 24) as u8
            } else if i == 9 {
                (lba >> 32) as u8
            } else if i == 10 {
                (lba >> 40) as u8
            } else if i == 11 && ncq {
                (sectors >> 8) as u8
            } else if i == 12 {
                if ncq {
                    tag << 3
                } else {
                    sectors as u8
                }
            } else if i == 13 && !ncq {
                (sectors >> 8) as u8
            } else {
                0
            },
    )
}

/// A read or write command.
pub fn fis(is_write: bool, ncq: bool, lba: u64, sectors: u16, tag: u8) -> (r: Vec<u8>)
    requires
        tag < 32,
    ensures
        r@ == transfer_fis(is_write, ncq, lba, sectors, tag),
{
    let mut f = crate::bytes::zeroed(20);
    f.set(0, FIS_TYPE_H2D);
    f.set(1, 0x80);
    f.set(4, lba as u8);
    f.set(5, (lba >> 8) as u8);
    f.set(6, (lba >> 16) as u8);
    f.set(8, (lba >> 24) as u8);
    f.set(9, (lba >> 32) as u8);
    f.set(10, (lba >> 40) as u8);
    if ncq {
        f.set(2, if is_write { CMD_WRITE_FPDMA } else { CMD_READ_FPDMA });
        f.set(3, sectors as u8);
        f.set(11, (sectors >> 8) as u8);
        f.set(7, if is_write { 0xC0 } else { 0x40 });
        f.set(12, tag << 3);
    } else {
        f.set(2, if is_write { CMD_WRITE_DMA_EX } else { CMD_READ_DMA_EX });
        f.set(7, 0x40);
        f.set(12, sectors as u8);
        f.set(13, (sectors >> 8) as u8);
    }
    assert(f@ =~= transfer_fis(is_write, ncq, lba, sectors, tag));
    f
}

/// The block number that a command names.
pub open spec fn fis_lba(f: Seq<u8>) -> u64 {
    (f[4] as u64) | ((f[5] as u64) << 8) | ((f[6] as u64) << 16) | ((f[8] as u64) << 24) | ((
    f[9] as u64) << 32) | ((f[10] as u64) << 40)
}

/// A command names the block it was made for, as far as 48 bits reach.
pub proof fn law_fis_names_the_block(is_write: bool, ncq: bool, lba: u64, sectors: u16, tag: u8)
    requires
        lba < 0x1_0000_0000_0000,
    ensures
        fis_lba(transfer_fis(is_write, ncq, lba, sectors, tag)) == lba,
{
    assert((lba as u8) as u64 | (((lba >> 8) as u8) as u64) << 8 | (((lba >> 16) as u8) as u64) << 16
        | (((lba >> 24) as u8) as u64) << 24 | (((lba >> 32) as u8) as u64) << 32 | (((lba
        >> 40) as u8) as u64) << 40 == lba) by (bit_vector)
        requires
            lba < 0x1_0000_0000_0000,
    ;
}

/// A command without a block.
pub open spec fn plain_fis(command: u8, device: u8) -> Seq<u8> {
    Seq::new(
        20,
        |i: int|
            if i == 0 {
                FIS_TYPE_H2D
            } else if i == 1 {
                0x80
            } else if i == 2 {
                command
            } else if i == 7 {
                device
            } else {
                0
            },
    )
}

fn make_plain_fis(command: u8, device: u8) -> (r: Vec<u8>)
    ensures
        r@ == plain_fis(command, device),
{
    let mut f = crate::bytes::zeroed(20);
    f.set(0, FIS_TYPE_H2D);
    f.set(1, 0x80);
    f.set(2, command);
    f.set(7, device);
    assert(f@ =~= plain_fis(command, device));
    f
}

/// A command ready to go: its header in the list, its table, and the bits that
/// set it off.
pub struct Command {
    pub header_at: u64,
    pub header: [u32; 4],
    pub table_at: u64,
    pub table: Vec<u8>,
    pub sact: Option<u32>,
    pub ci: u32,
}

/// The command table: the command, and where its data lies.
pub open spec fn table_of(fis: Seq<u8>, buf: Option<(u64, u32)>) -> Seq<u8> {
    let t = bytes::zeros(0x90);
    let t = match buf {
        Some((phys, n)) => bytes::splice(
            t,
            0x80,
            bytes::bytes64(phys) + bytes::bytes32(0) + bytes::bytes32((n - 1) as u32),
        ),
        None => t,
    };
    bytes::splice(t, 0, fis)
}

/// The disk's memory is whole frames, which hold any tag's header and table.
pub open spec fn in_memory(d: Disk) -> bool {
    &&& d.clb_phys % 4096 == 0
    &&& d.ctab_phys@[0] % 4096 == 0
    &&& d.ctab_phys@[1] % 4096 == 0
}

/// A command's header: the length of its command in words, the write bit, the
/// count of data descriptors, and where its table lies.
pub open spec fn header_of(table_at: u64, is_write: bool, has_data: bool) -> Seq<u32> {
    seq![
        5u32 | (if is_write {
            0x40u32
        } else {
            0
        }) | (if has_data {
            0x1_0000u32
        } else {
            0
        }),
        0u32,
        table_at as u32,
        (table_at >> 32) as u32,
    ]
}

/// Lay out the command of a tag.
pub fn issue(
    d: &Disk,
    tag: u8,
    ncq: bool,
    is_write: bool,
    buf: Option<(u64, u32)>,
    fis: &[u8],
) -> (r: Command)
    requires
        tag < 32,
        in_memory(*d),
        fis@.len() == 20,
        buf matches Some((_, n)) ==> n > 0,
    ensures
        r.header_at == d.clb_phys + tag * 32,
        r.table_at == table_at(*d, tag),
        r.header@ == header_of(r.table_at, is_write, buf is Some),
        r.table@ == table_of(fis@, buf),
        r.ci == 1u32 << tag,
        r.sact == if ncq {
            Some(1u32 << tag)
        } else {
            None
        },
{
    let at: u64 = d.ctab_phys[(tag / 16) as usize] + (tag % 16) as u64 * 0x100;
    let w: u32 = if is_write { 0x40 } else { 0 };
    let p: u32 = if buf.is_some() { 0x1_0000 } else { 0 };
    let header: [u32; 4] = [5 | w | p, 0, at as u32, (at >> 32) as u32];
    assert(header@ =~= header_of(at, is_write, buf is Some));
    let mut t = crate::bytes::zeroed(0x90);
    match buf {
        Some((phys, n)) => {
            let mut e = crate::bytes::to_bytes64(phys);
            let z = crate::bytes::to_bytes32(0);
            crate::bytes::extend(&mut e, z.as_slice());
            let c = crate::bytes::to_bytes32(n - 1);
            crate::bytes::extend(&mut e, c.as_slice());
            crate::bytes::put(&mut t, 0x80, e.as_slice());
        },
        None => {},
    }
    crate::bytes::put(&mut t, 0, fis);
    Command {
        header_at: d.clb_phys + tag as u64 * 32,
        header,
        table_at: at,
        table: t,
        sact: if ncq { Some(1u32 << tag) } else { None },
        ci: 1u32 << tag,
    }
}

/// Ask the disk what it is, into the buffer at `buf`.
pub fn identify(d: &Disk, buf: u64) -> (r: Command)
    requires
        in_memory(*d),
    ensures
        r.header_at == d.clb_phys,
        r.table_at == d.ctab_phys@[0],
        r.header@ == header_of(r.table_at, false, true),
        r.table@ == table_of(plain_fis(CMD_IDENTIFY, 0), Some((buf, 512u32))),
        r.ci == 1,
        r.sact is None,
{
    assert(1u32 << 0u8 == 1u32) by (bit_vector);
    let f = make_plain_fis(CMD_IDENTIFY, 0);
    issue(d, 0, false, false, Some((buf, 512)), f.as_slice())
}

/// Make the disk write everything down; `tag` is the one this takes.
pub fn flush(d: &Disk, tag: u8) -> (r: Command)
    requires
        tag < 32,
        in_memory(*d),
    ensures
        r.header_at == d.clb_phys + tag * 32,
        r.table_at == table_at(*d, tag),
        r.header@ == header_of(r.table_at, false, false),
        r.table@ == table_of(plain_fis(CMD_FLUSH_CACHE_EX, 0x40), None),
        r.ci == 1u32 << tag,
        r.sact is None,
{
    let f = make_plain_fis(CMD_FLUSH_CACHE_EX, 0x40);
    issue(d, tag, false, false, None, f.as_slice())
}

/// Whether every other command has ended, so that a flush may go.
pub fn drained(sact: u32, ci: u32, tag: u8) -> (r: bool)
    requires
        tag < 32,
    ensures
        r == (sact & !(1u32 << tag) == 0 && ci & !(1u32 << tag) == 0),
{
    let others: u32 = !(1u32 << tag);
    sact & others == 0 && ci & others == 0
}

/// Whether the disk takes a new command.
pub fn is_ready(tfd: u32) -> (r: bool)
    ensures
        r == (tfd & (TFD_BSY | TFD_DRQ) == 0),
{
    tfd & (TFD_BSY | TFD_DRQ) == 0
}

/// What a look at the registers says of a running command.
#[derive(Clone, Copy, PartialEq, Eq, Debug, Structural)]
pub enum Poll {
    /// It failed; this is to be written back to the status register.
    Failed(u32),
    Done,
    Again,
}

/// Look whether a command has ended.
pub fn wait(is: u32, tfd: u32, sact: u32, ci: u32, tag: u8, ncq: bool) -> (r: Poll)
    requires
        tag < 32,
    ensures
        r == if is & IS_TFES != 0 || tfd & TFD_ERR != 0 {
            Poll::Failed(is)
        } else if (if ncq {
            sact
        } else {
            ci
        }) & (1u32 << tag) == 0 {
            Poll::Done
        } else {
            Poll::Again
        },
{
    if is & IS_TFES != 0 || tfd & TFD_ERR != 0 {
        return Poll::Failed(is);
    }
    let busy: u32 = if ncq { sact } else { ci };
    if busy & (1u32 << tag) == 0 {
        Poll::Done
    } else {
        Poll::Again
    }
}

/// The sectors of a transfer of `len` bytes: a whole number, at least one, and
/// not more than a frame holds.
pub fn transfer_size(len: usize) -> (r: Option<u16>)
    ensures
        r == if len % 512 == 0 && 0 < len <= 4096 {
            Some((len / 512) as u16)
        } else {
            None
        },
{
    if len % 512 == 0 && 0 < len && len <= 4096 {
        Some((len / 512) as u16)
    } else {
        None
    }
}

/// Plan a transfer on a free tag.
pub fn transfer(
    disk: &Option<Disk>,
    is_write: bool,
    lba: u64,
    sectors: u16,
    buf: u64,
    tag: u8,
) -> (r: Result<Command, &'static str>)
    requires
        tag < 32,
        sectors > 0,
        *disk matches Some(d) ==> in_memory(d),
    ensures
        match *disk {
            None => r == Err::<Command, &'static str>(NOT_UP),
            Some(d) => if d.sectors != 0 && lba + sectors > d.sectors {
                r == Err::<Command, &'static str>("AHCI: LBA past end of disk")
            } else {
                &&& r matches Ok(c)
                &&& c.header_at == d.clb_phys + tag * 32
                &&& c.table_at == table_at(d, tag)
                &&& c.header@ == header_of(c.table_at, is_write, true)
                &&& c.table@ == table_of(
                    transfer_fis(is_write, d.depth > 1, lba, sectors, tag),
                    Some((buf, (sectors * 512) as u32)),
                )
                &&& c.ci == 1u32 << tag
                &&& c.sact == if d.depth > 1 {
                    Some(1u32 << tag)
                } else {
                    None
                }
            },
        },
{
    let d: Disk = match disk {
        Some(d) => *d,
        None => { return Err(NOT_UP); },
    };
    if d.sectors != 0 && (lba > d.sectors || sectors as u64 > d.sectors - lba) {
        return Err("AHCI: LBA past end of disk");
    }
    let ncq: bool = d.depth > 1;
    let f = fis(is_write, ncq, lba, sectors, tag);
    Ok(issue(&d, tag, ncq, is_write, Some((buf, sectors as u32 * 512)), f.as_slice()))
}

/// Whether a write still has to be flushed: a queued one is written through.
pub fn needs_flush(disk: &Option<Disk>) -> (r: bool)
    ensures
        r == match *disk {
            Some(d) => d.depth == 1,
            None => true,
        },
{
    queue_depth(disk) == 1
}

proof fn lemma_write_bit(n: u32)
    by (bit_vector)
    requires
        n == 0 || n == 0x1_0000,
    ensures
        (5u32 | 0x40u32 | n) & 0x40u32 == 0x40u32,
        (5u32 | 0u32 | n) & 0x40u32 == 0u32,
        (5u32 | 0x40u32 | n) >> 16u32 == n >> 16u32,
        (5u32 | 0u32 | n) >> 16u32 == n >> 16u32,
        0x1_0000u32 >> 16u32 == 1,
        0u32 >> 16u32 == 0,
{
}

/// A command moves data the way it was asked to: the write bit of its header is
/// set exactly for a write, and the header counts one data descriptor exactly
/// where there is data.
pub proof fn law_header_says_the_direction(table_at: u64, is_write: bool, has_data: bool)
    ensures
        header_of(table_at, is_write, has_data)[0] & 0x40u32 == if is_write {
            0x40u32
        } else {
            0
        },
        header_of(table_at, is_write, has_data)[0] >> 16u32 == if has_data {
            1u32
        } else {
            0
        },
{
    lemma_write_bit(0);
    lemma_write_bit(0x1_0000);
}

} // verus!
