//! The kernel's own page tables: which pages they map, and with what rights.
use vstd::prelude::*;

use crate::mm::Entry;

verus! {

pub const GIB: u64 = 0x4000_0000;

pub const HHDM_MAX_GIB: u64 = 512;

pub const PRESENT: u64 = 1;

pub const WRITABLE: u64 = 2;

pub const USER: u64 = 4;

pub const NO_EXECUTE: u64 = 0x8000_0000_0000_0000;

/// One page to map, of 4 KiB or of 1 GiB.
#[derive(Clone, Copy)]
pub struct Mapping {
    pub virt: u64,
    pub phys: u64,
    pub big: bool,
    pub flags: u64,
}

/// Where the last byte of the memory map ends.
pub open spec fn top_of(es: Seq<Entry>) -> int
    decreases es.len(),
{
    if es.len() == 0 {
        0
    } else {
        let m = top_of(es.drop_last());
        let e = es.last();
        if e.base + e.length > m {
            e.base + e.length
        } else {
            m
        }
    }
}

/// How many GiB the direct map covers.
pub open spec fn direct_gib(es: Seq<Entry>) -> int {
    let n = (top_of(es) + GIB - 1) / (GIB as int);
    if n < 4 {
        4
    } else if n > HHDM_MAX_GIB {
        HHDM_MAX_GIB as int
    } else {
        n
    }
}

/// Every region ends where an address can name it and its rounding.
pub open spec fn addressable(es: Seq<Entry>) -> bool {
    forall|i: int| 0 <= i < es.len() ==> (#[trigger] es[i]).base + es[i].length + (GIB - 1)
        <= u64::MAX
}

/// How many GiB the direct map covers.
pub fn hhdm_gib(entries: &[Entry]) -> (r: u64)
    requires
        addressable(entries@),
    ensures
        r == direct_gib(entries@),
        4 <= r <= HHDM_MAX_GIB,
{
    let mut top: u64 = 0;
    let n: usize = entries.len();
    let mut i: usize = 0;
    while i < n
        invariant
            i <= n,
            n == entries@.len(),
            addressable(entries@),
            top == top_of(entries@.take(i as int)),
            top + (GIB - 1) <= u64::MAX,
        decreases n - i,
    {
        let e: Entry = entries[i];
        assert(entries@.take(i + 1).drop_last() =~= entries@.take(i as int));
        assert(entries@[i as int] == e);
        if e.base + e.length > top {
            top = e.base + e.length;
        }
        i = i + 1;
    }
    assert(entries@.take(n as int) =~= entries@);
    let g: u64 = (top + (GIB - 1)) / GIB;
    if g < 4 {
        4
    } else if g > HHDM_MAX_GIB {
        HHDM_MAX_GIB
    } else {
        g
    }
}

/// The bits of an entry with these rights.
pub open spec fn rights(writable: bool, user: bool, executable: bool) -> u64 {
    let f = if writable {
        PRESENT | WRITABLE
    } else {
        PRESENT
    };
    let g = if user {
        f | USER
    } else {
        f
    };
    if executable {
        g
    } else {
        g | NO_EXECUTE
    }
}

/// The bits of the page and of the tables above it.
pub fn page_flags(writable: bool, user: bool, executable: bool) -> (r: (u64, u64))
    ensures
        r.0 == rights(writable, user, executable),
        r.1 == rights(true, user, true),
{
    let f: u64 = if writable { PRESENT | WRITABLE } else { PRESENT };
    let g: u64 = if user { f | USER } else { f };
    let p: u64 = if user { (PRESENT | WRITABLE) | USER } else { PRESENT | WRITABLE };
    (if executable { g } else { g | NO_EXECUTE }, p)
}

/// The page to map for one address, and the bits of the tables above it.
pub fn map_page(virt: u64, phys: u64, writable: bool, user: bool, exec_: bool) -> (r: (Mapping, u64))
    ensures
        r.0 == (Mapping {
            virt: (virt - virt % 4096) as u64,
            phys: (phys - phys % 4096) as u64,
            big: false,
            flags: rights(writable, user, exec_),
        }),
        r.1 == rights(true, user, true),
{
    let (flags, parents) = page_flags(writable, user, exec_);
    (
        Mapping { virt: virt - virt % 4096, phys: phys - phys % 4096, big: false, flags },
        parents,
    )
}

/// A part of the kernel image and what may be done with it.
#[derive(Clone, Copy)]
pub struct Section {
    pub start: u64,
    pub end: u64,
    pub writable: bool,
    pub executable: bool,
}

/// The page at `virt` of an image that lies at `phys_base` and is linked at
/// `virt_base`.
pub open spec fn image_page(s: Section, virt: int, phys_base: u64, virt_base: u64) -> Mapping {
    Mapping {
        virt: virt as u64,
        phys: (phys_base + (virt - virt_base)) as u64,
        big: false,
        flags: rights(s.writable, false, s.executable),
    }
}

/// How many pages a section touches.
pub open spec fn page_count(s: Section) -> nat {
    let lo = crate::mm::down(s.start as int, 4096);
    if s.end > lo {
        ((s.end - lo + 4095) / 4096) as nat
    } else {
        0
    }
}

/// The pages of a section, lowest first.
pub open spec fn section_pages(s: Section, phys_base: u64, virt_base: u64) -> Seq<Mapping> {
    let lo = crate::mm::down(s.start as int, 4096);
    Seq::new(page_count(s), |i: int| image_page(s, lo + i * 4096, phys_base, virt_base))
}

/// The section lies in the image, and the image in memory.
pub open spec fn placed(s: Section, phys_base: u64, virt_base: u64) -> bool {
    &&& virt_base <= crate::mm::down(s.start as int, 4096)
    &&& s.end <= u64::MAX - 4096
    &&& phys_base + (s.end - virt_base) + 4096 <= u64::MAX
}

/// Add the pages of a section to the plan.
pub fn map_range_4k(out: &mut Vec<Mapping>, s: &Section, phys_base: u64, virt_base: u64)
    requires
        placed(*s, phys_base, virt_base),
    ensures
        final(out)@ == old(out)@ + section_pages(*s, phys_base, virt_base),
{
    let lo: u64 = crate::mm::align_down(s.start, 4096);
    let flags: u64 = page_flags(s.writable, false, s.executable).0;
    let mut v: u64 = lo;
    let ghost mut k: int = 0;
    let ghost all = section_pages(*s, phys_base, virt_base);
    assert(out@ =~= old(out)@ + all.take(0));
    while v < s.end
        invariant
            placed(*s, phys_base, virt_base),
            lo == crate::mm::down(s.start as int, 4096),
            lo >= virt_base,
            flags == rights(s.writable, false, s.executable),
            all == section_pages(*s, phys_base, virt_base),
            0 <= k,
            v == lo + k * 4096,
            v < s.end + 4096 || k == 0,
            k <= all.len(),
            out@ == old(out)@ + all.take(k),
        decreases
                if s.end > v {
                    s.end - v
                } else {
                    0
                },
    {
        assert(k < all.len());
        let m = Mapping { virt: v, phys: phys_base + (v - virt_base), big: false, flags };
        assert(m == all[k]);
        out.push(m);
        proof {
            k = k + 1;
        }
        v = v + 4096;
        assert(out@ =~= old(out)@ + all.take(k));
    }
    assert(k == all.len());
    assert(all.take(k) =~= all);
}

/// `n` pages of 1 GiB from `virt` on, for the memory from 0 on.
pub open spec fn big_pages(virt: u64, n: int) -> Seq<Mapping> {
    Seq::new(
        n as nat,
        |i: int|
            Mapping {
                virt: (virt + i * GIB) as u64,
                phys: (i * GIB) as u64,
                big: true,
                flags: rights(true, false, false),
            },
    )
}

fn map_1g(out: &mut Vec<Mapping>, virt: u64, n: u64)
    requires
        n <= HHDM_MAX_GIB,
        virt + n * GIB <= u64::MAX,
    ensures
        final(out)@ == old(out)@ + big_pages(virt, n as int),
{
    let flags: u64 = page_flags(true, false, false).0;
    let mut i: u64 = 0;
    assert(out@ =~= old(out)@ + big_pages(virt, n as int).take(0));
    while i < n
        invariant
            i <= n,
            n <= HHDM_MAX_GIB,
            virt + n * GIB <= u64::MAX,
            flags == rights(true, false, false),
            out@ == old(out)@ + big_pages(virt, n as int).take(i as int),
        decreases n - i,
    {
        out.push(Mapping { virt: virt + i * GIB, phys: i * GIB, big: true, flags });
        i = i + 1;
        assert(out@ =~= old(out)@ + big_pages(virt, n as int).take(i as int));
    }
    assert(big_pages(virt, n as int).take(n as int) =~= big_pages(virt, n as int));
}

/// Everything the kernel's tables map: the low 4 GiB in place, all memory at
/// `hhdm`, and the image section by section.
pub open spec fn kernel_map(
    hhdm: u64,
    es: Seq<Entry>,
    code: Section,
    consts: Section,
    data: Section,
    phys_base: u64,
    virt_base: u64,
) -> Seq<Mapping> {
    big_pages(0, 4) + big_pages(hhdm, direct_gib(es)) + section_pages(code, phys_base, virt_base)
        + section_pages(consts, phys_base, virt_base) + section_pages(data, phys_base, virt_base)
}

/// Plan the kernel's page tables from where the image's three parts lie.
pub fn init(
    hhdm: u64,
    entries: &[Entry],
    code: (u64, u64),
    consts: (u64, u64),
    data: (u64, u64),
    phys_base: u64,
    virt_base: u64,
) -> (r: Vec<Mapping>)
    requires
        addressable(entries@),
        hhdm + direct_gib(entries@) * GIB <= u64::MAX,
        placed(code_section(code), phys_base, virt_base),
        placed(const_section(consts), phys_base, virt_base),
        placed(data_section(data), phys_base, virt_base),
    ensures
        r@ == kernel_map(
            hhdm,
            entries@,
            code_section(code),
            const_section(consts),
            data_section(data),
            phys_base,
            virt_base,
        ),
{
    let mut out: Vec<Mapping> = Vec::new();
    map_1g(&mut out, 0, 4);
    let n: u64 = hhdm_gib(entries);
    map_1g(&mut out, hhdm, n);
    let s = Section { start: code.0, end: code.1, writable: false, executable: true };
    map_range_4k(&mut out, &s, phys_base, virt_base);
    let s = Section { start: consts.0, end: consts.1, writable: false, executable: false };
    map_range_4k(&mut out, &s, phys_base, virt_base);
    let s = Section { start: data.0, end: data.1, writable: true, executable: false };
    map_range_4k(&mut out, &s, phys_base, virt_base);
    assert(out@ =~= kernel_map(
        hhdm,
        entries@,
        code_section(code),
        const_section(consts),
        data_section(data),
        phys_base,
        virt_base,
    ));
    out
}

/// Code may be run and not written.
pub open spec fn code_section(at: (u64, u64)) -> Section {
    Section { start: at.0, end: at.1, writable: false, executable: true }
}

/// Constants may only be read.
pub open spec fn const_section(at: (u64, u64)) -> Section {
    Section { start: at.0, end: at.1, writable: false, executable: false }
}

/// Data may be written and not run.
pub open spec fn data_section(at: (u64, u64)) -> Section {
    Section { start: at.0, end: at.1, writable: true, executable: false }
}

/// Nothing that the kernel maps can be both written and run.
pub proof fn law_no_page_is_writable_and_executable(
    hhdm: u64,
    es: Seq<Entry>,
    code: (u64, u64),
    consts: (u64, u64),
    data: (u64, u64),
    phys_base: u64,
    virt_base: u64,
    i: int,
)
    requires
        0 <= i < kernel_map(
            hhdm,
            es,
            code_section(code),
            const_section(consts),
            data_section(data),
            phys_base,
            virt_base,
        ).len(),
    ensures
        ({
            let f = kernel_map(
                hhdm,
                es,
                code_section(code),
                const_section(consts),
                data_section(data),
                phys_base,
                virt_base,
            )[i].flags;
            f & WRITABLE == 0 || f & NO_EXECUTE != 0
        }),
{
    let (p, w, x) = (1u64, 2u64, 0x8000_0000_0000_0000u64);
    assert(p & w == 0 && (p | x) & x != 0 && ((p | w) | x) & x != 0) by (bit_vector)
        requires
            p == 1,
            w == 2,
            x == 0x8000_0000_0000_0000u64,
    ;
    let m = kernel_map(
        hhdm,
        es,
        code_section(code),
        const_section(consts),
        data_section(data),
        phys_base,
        virt_base,
    )[i];
    assert(m.flags == rights(true, false, false) || m.flags == rights(false, false, true)
        || m.flags == rights(false, false, false));
}

} // verus!
