//! The static ACPI tables: from the root pointer to the interrupt controllers.
//!
//! Physical memory is the sequence of its bytes from address 0 on; a table that
//! runs out of it cannot be read.
use vstd::prelude::*;

use crate::bytes;
use crate::bytes::{load16, load32, load64};

verus! {

/// A processor.
#[derive(Clone, Copy, Debug)]
pub struct Cpu {
    pub apic_id: u32,
    /// Usable now; otherwise it has to be brought online first.
    pub enabled: bool,
}

#[derive(Clone, Copy, Debug)]
pub struct IoApic {
    pub id: u8,
    pub address: u32,
    pub gsi_base: u32,
}

/// A legacy interrupt that arrives under another number.
#[derive(Clone, Copy, Debug)]
pub struct IrqOverride {
    pub source: u8,
    pub gsi: u32,
    pub flags: u16,
}

pub struct AcpiInfo {
    pub revision: u8,
    pub local_apic_addr: u64,
    pub cpus: Vec<Cpu>,
    pub io_apics: Vec<IoApic>,
    pub overrides: Vec<IrqOverride>,
}

#[verifier::ext_equal]
pub struct Info {
    pub revision: u8,
    pub local_apic_addr: u64,
    pub cpus: Seq<Cpu>,
    pub io_apics: Seq<IoApic>,
    pub overrides: Seq<IrqOverride>,
}

impl View for AcpiInfo {
    type V = Info;

    open spec fn view(&self) -> Info {
        Info {
            revision: self.revision,
            local_apic_addr: self.local_apic_addr,
            cpus: self.cpus@,
            io_apics: self.io_apics@,
            overrides: self.overrides@,
        }
    }
}

pub const HEADER: usize = 36;

pub const OUTSIDE: &'static str = "ACPI table outside memory";

pub const BAD_RSDP: &'static str = "bad RSDP signature";

pub const NO_MADT: &'static str = "no MADT (APIC) table found";

pub const BAD_LENGTH: &'static str = "ACPI table length";

/// The processor of an entry, where its flags say that it can be used.
pub open spec fn cpu_added(i: Info, apic_id: u32, flags: u32) -> Info {
    if flags & 1 != 0 || flags & 2 != 0 {
        Info { cpus: i.cpus.push(Cpu { apic_id, enabled: flags & 1 != 0 }), ..i }
    } else {
        i
    }
}

/// How many bytes an entry of this kind is read by.
pub open spec fn reach(kind: u8) -> int {
    if kind == 0 {
        8
    } else if kind == 1 || kind == 9 || kind == 5 {
        12
    } else if kind == 2 {
        10
    } else {
        2
    }
}

/// The entry at `e` taken in.
pub open spec fn entry_read(m: Seq<u8>, e: int, i: Info) -> Info {
    let kind = m[e];
    if kind == 0 {
        cpu_added(i, m[e + 3] as u32, bytes::le32(m, e + 4))
    } else if kind == 9 {
        cpu_added(i, bytes::le32(m, e + 4), bytes::le32(m, e + 8))
    } else if kind == 1 {
        Info {
            io_apics: i.io_apics.push(
                IoApic {
                    id: m[e + 2],
                    address: bytes::le32(m, e + 4),
                    gsi_base: bytes::le32(m, e + 8),
                },
            ),
            ..i
        }
    } else if kind == 2 {
        Info {
            overrides: i.overrides.push(
                IrqOverride {
                    source: m[e + 3],
                    gsi: bytes::le32(m, e + 4),
                    flags: bytes::le16(m, e + 8),
                },
            ),
            ..i
        }
    } else if kind == 5 {
        Info { local_apic_addr: bytes::le64(m, e + 4), ..i }
    } else {
        i
    }
}

/// The entries from `off` on of the table at `base` with `total` bytes. An
/// entry that is too short or too long ends the list.
pub open spec fn entries_read(m: Seq<u8>, base: int, total: int, off: int, i: Info) -> Result<
    Info,
    &'static str,
>
    decreases total - off,
{
    if off + 2 > total {
        Ok(i)
    } else if base + off + 2 > m.len() {
        Err(OUTSIDE)
    } else {
        let len = m[base + off + 1] as int;
        if len < 2 || off + len > total {
            Ok(i)
        } else if base + off + reach(m[base + off]) > m.len() {
            Err(OUTSIDE)
        } else {
            entries_read(m, base, total, off + len, entry_read(m, base + off, i))
        }
    }
}

/// The interrupt controllers that the table at `base` lists.
pub open spec fn madt_read(m: Seq<u8>, base: int, i: Info) -> Result<Info, &'static str> {
    if base + 44 > m.len() {
        Err(OUTSIDE)
    } else {
        entries_read(
            m,
            base,
            bytes::le32(m, base + 4) as int,
            44,
            Info { local_apic_addr: bytes::le32(m, base + 36) as u64, ..i },
        )
    }
}

/// Take in the interrupt controllers that the table at `base` lists.
pub fn parse_madt(m: &[u8], base: usize, info: &mut AcpiInfo) -> (r: Result<(), &'static str>)
    ensures
        match madt_read(m@, base as int, old(info)@) {
            Ok(i) => r is Ok && final(info)@ == i,
            Err(e) => r == Err::<(), &'static str>(e),
        },
{
    let size: usize = m.len();
    if size < 44 || base > size - 44 {
        return Err(OUTSIDE);
    }
    let total: usize = load32(m, base + 4) as usize;
    info.local_apic_addr = load32(m, base + 36) as u64;
    let ghost want = madt_read(m@, base as int, old(info)@);
    let mut off: usize = 44;
    assert(info@ =~= (Info {
        local_apic_addr: bytes::le32(m@, base + 36) as u64,
        ..old(info)@
    }));
    while off <= total && total - off >= 2
        invariant
            size == m@.len(),
            base + 44 <= size,
            total <= 0xFFFF_FFFF,
            want == madt_read(m@, base as int, old(info)@),
            want == entries_read(m@, base as int, total as int, off as int, info@),
        decreases total - off,
    {
        if size - base < off || size - base - off < 2 {
            return Err(OUTSIDE);
        }
        let e: usize = base + off;
        let kind: u8 = m[e];
        let len: usize = m[e + 1] as usize;
        if len < 2 || len > total - off {
            return Ok(());
        }
        let need: usize = if kind == 0 {
            8
        } else if kind == 1 || kind == 9 || kind == 5 {
            12
        } else if kind == 2 {
            10
        } else {
            2
        };
        if size - e < need {
            return Err(OUTSIDE);
        }
        let ghost i0 = info@;
        if kind == 0 {
            let flags: u32 = load32(m, e + 4);
            if flags & 1 != 0 || flags & 2 != 0 {
                info.cpus.push(Cpu { apic_id: m[e + 3] as u32, enabled: flags & 1 != 0 });
            }
        } else if kind == 9 {
            let flags: u32 = load32(m, e + 8);
            if flags & 1 != 0 || flags & 2 != 0 {
                info.cpus.push(Cpu { apic_id: load32(m, e + 4), enabled: flags & 1 != 0 });
            }
        } else if kind == 1 {
            info.io_apics.push(
                IoApic { id: m[e + 2], address: load32(m, e + 4), gsi_base: load32(m, e + 8) },
            );
        } else if kind == 2 {
            info.overrides.push(
                IrqOverride { source: m[e + 3], gsi: load32(m, e + 4), flags: load16(m, e + 8) },
            );
        } else if kind == 5 {
            info.local_apic_addr = load64(m, e + 4);
        }
        assert(info@ =~= entry_read(m@, e as int, i0));
        off = off + len;
    }
    Ok(())
}

/// The signature of the table of interrupt controllers.
pub open spec fn is_madt(m: Seq<u8>, at: int) -> bool {
    m[at] == 0x41 && m[at + 1] == 0x50 && m[at + 2] == 0x49 && m[at + 3] == 0x43
}

/// Pointer `i` of the root table at `root`.
pub open spec fn pointer(m: Seq<u8>, root: int, wide: bool, i: int) -> int {
    if wide {
        bytes::le64(m, root + 36 + i * 8) as int
    } else {
        bytes::le32(m, root + 36 + i * 4) as int
    }
}

/// The first table of interrupt controllers among the pointers from `i` on.
pub open spec fn madt_from(m: Seq<u8>, root: int, wide: bool, n: int, i: int) -> Result<
    Option<int>,
    &'static str,
>
    decreases n - i,
{
    let size = if wide {
        8int
    } else {
        4
    };
    if i >= n {
        Ok(None)
    } else if root + 36 + (i + 1) * size > m.len() {
        Err(OUTSIDE)
    } else {
        let p = pointer(m, root, wide, i);
        if p + 4 > m.len() {
            Err(OUTSIDE)
        } else if is_madt(m, p) {
            Ok(Some(p))
        } else {
            madt_from(m, root, wide, n, i + 1)
        }
    }
}

/// The table of interrupt controllers that a root table names.
pub open spec fn madt_of(m: Seq<u8>, root: int, wide: bool) -> Result<Option<int>, &'static str> {
    if root + 36 > m.len() {
        Err(OUTSIDE)
    } else if bytes::le32(m, root + 4) < 36 {
        Err(BAD_LENGTH)
    } else {
        let n = (bytes::le32(m, root + 4) - 36) / if wide {
            8int
        } else {
            4
        };
        madt_from(m, root, wide, n, 0)
    }
}

/// Look through a root table, of 8-byte pointers where `wide`.
fn find_table(m: &[u8], root: u64, wide: bool) -> (r: Result<Option<usize>, &'static str>)
    ensures
        match madt_of(m@, root as int, wide) {
            Ok(Some(p)) => r matches Ok(Some(q)) && q == p,
            Ok(None) => r matches Ok(None),
            Err(e) => r == Err::<Option<usize>, &'static str>(e),
        },
{
    let size: usize = m.len();
    if size < 36 || root > (size - 36) as u64 {
        return Err(OUTSIDE);
    }
    let at: usize = root as usize;
    let len: u32 = load32(m, at + 4);
    if len < 36 {
        return Err(BAD_LENGTH);
    }
    let step: usize = if wide { 8 } else { 4 };
    let n: usize = (len as usize - 36) / step;
    let ghost want = madt_of(m@, root as int, wide);
    let mut i: usize = 0;
    while i < n
        invariant
            i <= n,
            size == m@.len(),
            at == root,
            at + 36 <= size,
            step == if wide {
                8int
            } else {
                4
            },
            n * step <= 0xFFFF_FFFF,
            want == madt_of(m@, root as int, wide),
            want == madt_from(m@, root as int, wide, n as int, i as int),
        decreases n - i,
    {
        assert(i * step + step <= n * step) by (nonlinear_arith)
            requires
                i < n,
                step > 0,
        ;
        let o: usize = i * step;
        if size - at - 36 < o || size - at - 36 - o < step {
            return Err(OUTSIDE);
        }
        let p: u64 = if wide {
            load64(m, at + 36 + o)
        } else {
            load32(m, at + 36 + o) as u64
        };
        if p > (size - 4) as u64 {
            return Err(OUTSIDE);
        }
        let q: usize = p as usize;
        if m[q] == 0x41 && m[q + 1] == 0x50 && m[q + 2] == 0x49 && m[q + 3] == 0x43 {
            return Ok(Some(q));
        }
        i = i + 1;
    }
    Ok(None)
}

/// The eight bytes the root pointer starts with.
pub open spec fn rsdp_signature() -> Seq<u8> {
    seq![0x52u8, 0x53, 0x44, 0x20, 0x50, 0x54, 0x52, 0x20]
}

/// What the tables behind the root pointer at `rsdp` say. From revision 2 on
/// the table of 64-bit pointers is used, where there is one.
pub open spec fn tables_read(m: Seq<u8>, rsdp: int) -> Result<Info, &'static str> {
    if rsdp + 36 > m.len() {
        Err(OUTSIDE)
    } else if m.subrange(rsdp, rsdp + 8) != rsdp_signature() {
        Err(BAD_RSDP)
    } else {
        let revision = m[rsdp + 15];
        let xsdt = bytes::le64(m, rsdp + 24);
        let madt = if revision >= 2 && xsdt != 0 {
            madt_of(m, xsdt as int, true)
        } else {
            madt_of(m, bytes::le32(m, rsdp + 16) as int, false)
        };
        match madt {
            Err(e) => Err(e),
            Ok(None) => Err(NO_MADT),
            Ok(Some(p)) => madt_read(
                m,
                p,
                Info {
                    revision,
                    local_apic_addr: 0,
                    cpus: Seq::empty(),
                    io_apics: Seq::empty(),
                    overrides: Seq::empty(),
                },
            ),
        }
    }
}

/// Read the tables behind the root pointer.
pub fn parse(m: &[u8], rsdp: u64) -> (r: Result<AcpiInfo, &'static str>)
    ensures
        match tables_read(m@, rsdp as int) {
            Ok(i) => r is Ok && r->Ok_0@ == i,
            Err(e) => r == Err::<AcpiInfo, &'static str>(e),
        },
{
    let size: usize = m.len();
    if size < 36 || rsdp > (size - 36) as u64 {
        return Err(OUTSIDE);
    }
    let at: usize = rsdp as usize;
    let sig = crate::bytes::sub(m, at, at + 8);
    let want: [u8; 8] = [0x52, 0x53, 0x44, 0x20, 0x50, 0x54, 0x52, 0x20];
    assert(want@ =~= rsdp_signature());
    if !crate::bytes::same(sig.as_slice(), want.as_slice()) {
        return Err(BAD_RSDP);
    }
    let revision: u8 = m[at + 15];
    let xsdt: u64 = load64(m, at + 24);
    let found = if revision >= 2 && xsdt != 0 {
        find_table(m, xsdt, true)
    } else {
        find_table(m, load32(m, at + 16) as u64, false)
    };
    let p: usize = match found {
        Err(e) => { return Err(e); },
        Ok(None) => { return Err(NO_MADT); },
        Ok(Some(p)) => p,
    };
    let mut info = AcpiInfo {
        revision,
        local_apic_addr: 0,
        cpus: Vec::new(),
        io_apics: Vec::new(),
        overrides: Vec::new(),
    };
    assert(info@ =~= (Info {
        revision,
        local_apic_addr: 0,
        cpus: Seq::empty(),
        io_apics: Seq::empty(),
        overrides: Seq::empty(),
    }));
    match parse_madt(m, p, &mut info) {
        Ok(()) => Ok(info),
        Err(e) => Err(e),
    }
}

} // verus!
