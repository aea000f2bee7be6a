//! Loading a Win64 program: resolve its imports against the synthetic system
//! modules and the libraries in `System32`, give every module its static TLS,
//! map everything, and lay out the process.
use vstd::prelude::*;

use crate::bytes;
use crate::bytes::{load32, load64, put, put32, put64};
use crate::mm;
use crate::mm::FrameAllocator;
use crate::pe;
use crate::pe::{Seg, TlsInfo};
use crate::process;
use crate::process::{Process, RunStatus, Space};
use crate::text;

verus! {

pub const MAX_DLL_DEPTH: u32 = 8;

pub const MAX_TLS_MODS: usize = 24;

pub const TLS_BLOCKS_OFF: usize = 0x100;

// --- export tables ---

/// One slot of a module's export table.
pub enum Export {
    Empty,
    Addr(u64),
    /// `module.function` or `module.#ordinal`.
    Forward(Vec<char>),
}

/// What an export slot says.
pub enum Exp {
    Empty,
    Addr(u64),
    Forward(Seq<char>),
}

impl View for Export {
    type V = Exp;

    open spec fn view(&self) -> Exp {
        match self {
            Export::Empty => Exp::Empty,
            Export::Addr(a) => Exp::Addr(*a),
            Export::Forward(s) => Exp::Forward(s@),
        }
    }
}

pub open spec fn exps(v: Seq<Export>) -> Seq<Exp> {
    v.map_values(|e: Export| e@)
}

pub open spec fn name_rows(v: Seq<(Vec<char>, usize)>) -> Seq<(Seq<char>, usize)> {
    v.map_values(|p: (Vec<char>, usize)| (p.0@, p.1))
}

/// Slot `i` of the function table at `eat`: empty, a forwarder where the RVA
/// points back into the export directory, else an address.
pub open spec fn slot_at(img: Seq<u8>, base: u64, eat: int, i: int, rva: int, size: int) -> Result<
    Exp,
    &'static str,
> {
    match pe::rd32(img, eat + i * 4) {
        Err(e) => Err(e),
        Ok(f) => if f == 0 {
            Ok(Exp::Empty)
        } else if rva <= f < rva + size {
            match pe::cstr(img, f as int) {
                Err(e) => Err(e),
                Ok(t) => Ok(Exp::Forward(t)),
            }
        } else {
            Ok(Exp::Addr((base + f) as u64))
        },
    }
}

/// `acc` and the slots `[i, n)` behind it.
pub open spec fn slots(
    img: Seq<u8>,
    base: u64,
    eat: int,
    rva: int,
    size: int,
    acc: Seq<Exp>,
    i: int,
    n: int,
) -> Result<Seq<Exp>, &'static str>
    decreases n - i,
{
    if i >= n {
        Ok(acc)
    } else {
        match slot_at(img, base, eat, i, rva, size) {
            Err(e) => Err(e),
            Ok(x) => slots(img, base, eat, rva, size, acc.push(x), i + 1, n),
        }
    }
}

/// `acc` and the names `[i, n)` behind it, each with its slot; a name whose
/// slot is not in a table of `funcs` slots is left out.
pub open spec fn named(
    img: Seq<u8>,
    names: int,
    ords: int,
    funcs: int,
    acc: Seq<(Seq<char>, usize)>,
    i: int,
    n: int,
) -> Result<Seq<(Seq<char>, usize)>, &'static str>
    decreases n - i,
{
    if i >= n {
        Ok(acc)
    } else {
        match pe::rd32(img, names + i * 4) {
            Err(e) => Err(e),
            Ok(at) => match pe::cstr(img, at as int) {
                Err(e) => Err(e),
                Ok(t) => match pe::rd16(img, ords + i * 2) {
                    Err(e) => Err(e),
                    Ok(idx) => named(
                        img,
                        names,
                        ords,
                        funcs,
                        if idx < funcs {
                            acc.push((t, idx as usize))
                        } else {
                            acc
                        },
                        i + 1,
                        n,
                    ),
                },
            },
        }
    }
}

/// The export table of an image at `base`: the slots, the ordinal of the
/// first, and the names. An image without a directory exports nothing.
pub open spec fn export_table(img: Seq<u8>, base: u64, rva: u32, size: u32) -> Result<
    (Seq<Exp>, u32, Seq<(Seq<char>, usize)>),
    &'static str,
> {
    let funcs = bytes::le32(img, rva + 0x14) as int;
    if rva == 0 {
        Ok((Seq::empty(), 1, Seq::empty()))
    } else if rva + 0x28 > img.len() {
        Err("PE: truncated (u32)")
    } else if funcs > 65536 {
        Err("PE: absurd export count")
    } else {
        match slots(
            img,
            base,
            bytes::le32(img, rva + 0x1C) as int,
            rva as int,
            size as int,
            Seq::empty(),
            0,
            funcs,
        ) {
            Err(e) => Err(e),
            Ok(eat) => match named(
                img,
                bytes::le32(img, rva + 0x20) as int,
                bytes::le32(img, rva + 0x24) as int,
                funcs,
                Seq::empty(),
                0,
                bytes::le32(img, rva + 0x18) as int,
            ) {
                Err(e) => Err(e),
                Ok(names) => Ok((eat, bytes::le32(img, rva + 0x10), names)),
            },
        }
    }
}

fn read_slot(img: &[u8], base: u64, at: u64, rva: u32, size: u32) -> (r: Result<
    Export,
    &'static str,
>)
    requires
        base + u32::MAX <= u64::MAX,
    ensures
        match slot_at(img@, base, at as int, 0, rva as int, size as int) {
            Ok(x) => r is Ok && r->Ok_0@ == x,
            Err(e) => r == Err::<Export, &'static str>(e),
        },
{
    let f: u32 = match crate::pe::rd_u32(img, at) {
        Ok(f) => f,
        Err(e) => { return Err(e); },
    };
    if f == 0 {
        Ok(Export::Empty)
    } else if f >= rva && (f as u64) < rva as u64 + size as u64 {
        match crate::pe::cstr_at(img, f as u64) {
            Ok(t) => Ok(Export::Forward(crate::text::chars_of(t))),
            Err(e) => Err(e),
        }
    } else {
        Ok(Export::Addr(base + f as u64))
    }
}

fn read_slots(img: &[u8], base: u64, eat: u32, rva: u32, size: u32, n: u32) -> (r: Result<
    Vec<Export>,
    &'static str,
>)
    requires
        base + u32::MAX <= u64::MAX,
        n <= 65536,
    ensures
        match slots(
            img@,
            base,
            eat as int,
            rva as int,
            size as int,
            Seq::empty(),
            0,
            n as int,
        ) {
            Ok(x) => r is Ok && exps(r->Ok_0@) == x && x.len() == n,
            Err(e) => r == Err::<Vec<Export>, &'static str>(e),
        },
{
    let mut out: Vec<Export> = Vec::new();
    let mut i: u32 = 0;
    assert(exps(out@) =~= Seq::empty());
    while i < n
        invariant
            i <= n <= 65536,
            base + u32::MAX <= u64::MAX,
            out@.len() == i,
            slots(img@, base, eat as int, rva as int, size as int, Seq::empty(), 0, n as int)
                == slots(
                img@,
                base,
                eat as int,
                rva as int,
                size as int,
                exps(out@),
                i as int,
                n as int,
            ),
        decreases n - i,
    {
        let at: u64 = eat as u64 + i as u64 * 4;
        let x = match read_slot(img, base, at, rva, size) {
            Ok(x) => x,
            Err(e) => { return Err(e); },
        };
        proof {
            assert(slot_at(img@, base, at as int, 0, rva as int, size as int) == slot_at(
                img@,
                base,
                eat as int,
                i as int,
                rva as int,
                size as int,
            ));
            assert(exps(out@.push(x)) =~= exps(out@).push(x@));
        }
        out.push(x);
        i = i + 1;
    }
    Ok(out)
}

fn read_names(img: &[u8], names: u32, ords: u32, funcs: u32, n: u32) -> (r: Result<
    Vec<(Vec<char>, usize)>,
    &'static str,
>)
    ensures
        match named(img@, names as int, ords as int, funcs as int, Seq::empty(), 0, n as int) {
            Ok(x) => r is Ok && name_rows(r->Ok_0@) == x,
            Err(e) => r == Err::<Vec<(Vec<char>, usize)>, &'static str>(e),
        },
{
    let mut out: Vec<(Vec<char>, usize)> = Vec::new();
    let mut i: u32 = 0;
    assert(name_rows(out@) =~= Seq::empty());
    while i < n
        invariant
            i <= n,
            named(img@, names as int, ords as int, funcs as int, Seq::empty(), 0, n as int)
                == named(
                img@,
                names as int,
                ords as int,
                funcs as int,
                name_rows(out@),
                i as int,
                n as int,
            ),
        decreases n - i,
    {
        let at: u32 = match crate::pe::rd_u32(img, names as u64 + i as u64 * 4) {
            Ok(v) => v,
            Err(e) => { return Err(e); },
        };
        let t = match crate::pe::cstr_at(img, at as u64) {
            Ok(t) => crate::text::chars_of(t),
            Err(e) => { return Err(e); },
        };
        let idx: u16 = match crate::pe::rd_u16(img, ords as u64 + i as u64 * 2) {
            Ok(v) => v,
            Err(e) => { return Err(e); },
        };
        if (idx as u32) < funcs {
            let row = (t, idx as usize);
            proof {
                assert(name_rows(out@.push(row)) =~= name_rows(out@).push((t@, idx as usize)));
            }
            out.push(row);
        }
        i = i + 1;
    }
    Ok(out)
}

/// Parse an export directory out of a materialised image.
pub fn parse_export_table(img: &[u8], base: u64, export_rva: u32, export_size: u32) -> (r: Result<
    (Vec<Export>, u32, Vec<(Vec<char>, usize)>),
    &'static str,
>)
    requires
        base + u32::MAX <= u64::MAX,
    ensures
        match export_table(img@, base, export_rva, export_size) {
            Ok((eat, ord_base, names)) => {
                &&& r is Ok
                &&& exps(r->Ok_0.0@) == eat
                &&& r->Ok_0.1 == ord_base
                &&& name_rows(r->Ok_0.2@) == names
            },
            Err(e) => r == Err::<(Vec<Export>, u32, Vec<(Vec<char>, usize)>), &'static str>(e),
        },
{
    if export_rva == 0 {
        let eat: Vec<Export> = Vec::new();
        let names: Vec<(Vec<char>, usize)> = Vec::new();
        assert(exps(eat@) =~= Seq::empty());
        assert(name_rows(names@) =~= Seq::empty());
        return Ok((eat, 1, names));
    }
    let len: usize = img.len();
    if export_rva as u64 + 0x28 > len as u64 {
        return Err("PE: truncated (u32)");
    }
    let ed: usize = export_rva as usize;
    let ord_base: u32 = load32(img, ed + 0x10);
    let funcs: u32 = load32(img, ed + 0x14);
    let n_names: u32 = load32(img, ed + 0x18);
    let eat_rva: u32 = load32(img, ed + 0x1C);
    let names_rva: u32 = load32(img, ed + 0x20);
    let ords_rva: u32 = load32(img, ed + 0x24);
    if funcs > 65536 {
        return Err("PE: absurd export count");
    }
    let eat = match read_slots(img, base, eat_rva, export_rva, export_size, funcs) {
        Ok(x) => x,
        Err(e) => { return Err(e); },
    };
    match read_names(img, names_rva, ords_rva, funcs, n_names) {
        Ok(names) => Ok((eat, ord_base, names)),
        Err(e) => Err(e),
    }
}

// --- mapping images ---

/// The space and free list after `size` bytes of the image at `off` were
/// mapped at `vaddr`; an empty piece takes one page.
#[verifier::opaque]
pub open spec fn seg_mapped(
    s: Space,
    free: Seq<u64>,
    img: Seq<u8>,
    vaddr: int,
    off: int,
    size: int,
    executable: bool,
) -> Result<(Space, Seq<u64>), &'static str> {
    let span = if size < 1 {
        1
    } else {
        size
    };
    let n = process::run_count(vaddr, span);
    let ok = |k: int| process::run_ok(img.len() as int, off, vaddr, size, k);
    if vaddr + span + 4096 > u64::MAX {
        Err("PE: section vaddr overflow")
    } else if n <= free.len() && forall|k: int| 0 <= k < n ==> #[trigger] ok(k) {
        Ok(
            (
                process::with_run(s, free, img, off, vaddr, size, executable, n),
                free.take(free.len() - n),
            ),
        )
    } else if n > free.len() && forall|k: int| 0 <= k < free.len() ==> #[trigger] ok(k) {
        Err("PE: out of frames")
    } else {
        Err("PE: image data out of range")
    }
}

/// Map `[base + off, base + off + size)` with the image's bytes from `off` on.
fn map_seg(
    proc: &mut Process,
    fa: &mut FrameAllocator,
    img: &[u8],
    base: u64,
    off: u64,
    size: u64,
    executable: bool,
) -> (r: Result<(), &'static str>)
    requires
        old(proc).wf(),
    ensures
        final(proc).wf(),
        final(proc).pml4() == old(proc).pml4(),
        match seg_mapped(
            old(proc)@,
            old(fa)@,
            img@,
            base + off,
            off as int,
            size as int,
            executable,
        ) {
            Ok((s, free)) => r is Ok && final(proc)@ == s && final(fa)@ == free,
            Err(e) => r == Err::<(), &'static str>(e),
        },
{
    reveal(seg_mapped);
    let span: u64 = if size < 1 { 1 } else { size };
    if off > u64::MAX - base {
        return Err("PE: section vaddr overflow");
    }
    let vaddr: u64 = base + off;
    if span > u64::MAX - vaddr || 4096 > u64::MAX - vaddr - span {
        return Err("PE: section vaddr overflow");
    }
    match proc.map_run(fa, img, off, vaddr, size, span, executable) {
        RunStatus::Mapped => Ok(()),
        RunStatus::NoFrame => Err("PE: out of frames"),
        RunStatus::NoData => Err("PE: image data out of range"),
    }
}

/// The sections `[k, ..)` mapped one after the other.
pub open spec fn segs_mapped(
    s: Space,
    free: Seq<u64>,
    img: Seq<u8>,
    base: u64,
    segs: Seq<Seg>,
    k: int,
) -> Result<(Space, Seq<u64>), &'static str>
    decreases segs.len() - k,
{
    if k >= segs.len() {
        Ok((s, free))
    } else {
        match seg_mapped(
            s,
            free,
            img,
            base + segs[k].rva,
            segs[k].rva as int,
            segs[k].mem_size as int,
            segs[k].executable,
        ) {
            Err(e) => Err(e),
            Ok((s2, free2)) => segs_mapped(s2, free2, img, base, segs, k + 1),
        }
    }
}

/// The headers, then every section over them.
pub open spec fn image_mapped(
    s: Space,
    free: Seq<u64>,
    img: Seq<u8>,
    base: u64,
    hdr_n: u64,
    segs: Seq<Seg>,
) -> Result<(Space, Seq<u64>), &'static str> {
    match seg_mapped(s, free, img, base as int, 0, hdr_n as int, false) {
        Err(e) => Err(e),
        Ok((s2, free2)) => segs_mapped(s2, free2, img, base, segs, 0),
    }
}

/// Map a bound image: headers first, sections win on any overlap.
fn map_image(
    proc: &mut Process,
    fa: &mut FrameAllocator,
    img: &[u8],
    base: u64,
    hdr_n: u64,
    segs: &Vec<Seg>,
) -> (r: Result<(), &'static str>)
    requires
        old(proc).wf(),
    ensures
        final(proc).wf(),
        final(proc).pml4() == old(proc).pml4(),
        match image_mapped(old(proc)@, old(fa)@, img@, base, hdr_n, segs@) {
            Ok((s, free)) => r is Ok && final(proc)@ == s && final(fa)@ == free,
            Err(e) => r == Err::<(), &'static str>(e),
        },
{
    match map_seg(proc, fa, img, base, 0, hdr_n, false) {
        Ok(()) => {},
        Err(e) => { return Err(e); },
    }
    let ghost s0 = proc@;
    let ghost free0 = fa@;
    let mut k: usize = 0;
    while k < segs.len()
        invariant
            k <= segs@.len(),
            proc.wf(),
            proc.pml4() == old(proc).pml4(),
            image_mapped(old(proc)@, old(fa)@, img@, base, hdr_n, segs@) == segs_mapped(
                s0,
                free0,
                img@,
                base,
                segs@,
                0,
            ),
            segs_mapped(s0, free0, img@, base, segs@, 0) == segs_mapped(
                proc@,
                fa@,
                img@,
                base,
                segs@,
                k as int,
            ),
        decreases segs@.len() - k,
    {
        let g = segs[k];
        match map_seg(proc, fa, img, base, g.rva, g.mem_size, g.executable) {
            Ok(()) => {},
            Err(e) => { return Err(e); },
        }
        k = k + 1;
    }
    Ok(())
}

// --- static TLS ---

/// The static-TLS page while modules are being added: the frame behind it (0:
/// none yet), its bytes, the next index, and the next free offset.
pub struct TlsBuild {
    pub frame: u64,
    pub page: Vec<u8>,
    pub n_mods: usize,
    pub blk_next: usize,
}

#[verifier::ext_equal]
pub struct Tls {
    pub frame: u64,
    pub page: Seq<u8>,
    pub n_mods: int,
    pub blk_next: int,
}

impl View for TlsBuild {
    type V = Tls;

    open spec fn view(&self) -> Tls {
        Tls {
            frame: self.frame,
            page: self.page@,
            n_mods: self.n_mods as int,
            blk_next: self.blk_next as int,
        }
    }
}

impl TlsBuild {
    pub open spec fn wf(self) -> bool {
        &&& self.page@.len() == 4096
        &&& self.frame % 4096 == 0
        &&& self.n_mods <= 24
        &&& 0x100 <= self.blk_next <= 4096
    }
}

/// `cbs` and the callbacks of the null-terminated array at `off`, at most
/// `left` of them, each with its module's base.
pub open spec fn with_callbacks(
    cbs: Seq<(u64, u64)>,
    img: Seq<u8>,
    base: u64,
    off: int,
    left: nat,
) -> Seq<(u64, u64)>
    decreases left,
{
    if left == 0 || off + 8 > img.len() || bytes::le64(img, off) == 0 {
        cbs
    } else {
        with_callbacks(
            cbs.push((base, bytes::le64(img, off))),
            img,
            base,
            off + 8,
            (left - 1) as nat,
        )
    }
}

/// The TLS page after its frame is there, and the free list.
pub open spec fn tls_ready(t: Tls, free: Seq<u64>) -> Option<(Tls, Seq<u64>)> {
    if t.frame != 0 {
        Some((t, free))
    } else if free.len() == 0 {
        None
    } else {
        Some(
            (
                Tls {
                    frame: mm::down(free.last() as int, 4096) as u64,
                    page: bytes::zeros(4096),
                    ..t
                },
                free.drop_last(),
            ),
        )
    }
}

/// The page after one module took its block: its template copied, the rest
/// zero, and the block's address in the pointer array.
pub open spec fn tls_block(t: Tls, base: u64, img: Seq<u8>, m: TlsInfo) -> Result<
    Tls,
    &'static str,
> {
    let raw_off = m.raw_start_va - base;
    let raw_len = m.raw_end_va - m.raw_start_va;
    let total = raw_len + m.zero_fill;
    if t.n_mods >= 24 {
        Err("PE: too many TLS modules")
    } else if raw_off < 0 {
        Err("PE: TLS data before base")
    } else if raw_len < 0 {
        Err("PE: bad TLS range")
    } else if t.blk_next + total > 4096 {
        Err("PE: static TLS overflows its page")
    } else if raw_off + raw_len > img.len() {
        Err("PE: TLS template out of range")
    } else {
        let page = bytes::splice(t.page, t.blk_next, img.subrange(raw_off, raw_off + raw_len));
        let page = bytes::splice(
            page,
            t.n_mods * 8,
            bytes::bytes64((crate::pe_pages::PE_TLS_ADDR + t.blk_next) as u64),
        );
        Ok(
            Tls {
                page,
                n_mods: t.n_mods + 1,
                blk_next: (t.blk_next + total + 15) / 16 * 16,
                ..t
            },
        )
    }
}

/// The image after the module's TLS index was written into it, and the
/// callbacks with the module's own behind them.
pub open spec fn tls_patched(
    img: Seq<u8>,
    base: u64,
    m: TlsInfo,
    idx: int,
    cbs: Seq<(u64, u64)>,
) -> Result<(Seq<u8>, Seq<(u64, u64)>), &'static str> {
    let ix = m.index_ptr_va - base;
    let img2 = bytes::splice(img, ix, bytes::bytes32(idx as u32));
    if ix < 0 {
        Err("PE: TLS index ptr before base")
    } else if ix + 4 > img.len() {
        Err("PE: TLS index ptr out of range")
    } else if m.callbacks_va == 0 {
        Ok((img2, cbs))
    } else if m.callbacks_va < base {
        Err("PE: TLS callbacks before base")
    } else {
        Ok((img2, with_callbacks(cbs, img2, base, m.callbacks_va - base, 64)))
    }
}

/// What adding a module changes: the page, the free list, the image and the
/// callbacks.
pub struct TlsStep {
    pub tls: Tls,
    pub free: Seq<u64>,
    pub img: Seq<u8>,
    pub cbs: Seq<(u64, u64)>,
}

#[verifier::opaque]
pub open spec fn tls_added(
    t: Tls,
    free: Seq<u64>,
    base: u64,
    img: Seq<u8>,
    m: TlsInfo,
    cbs: Seq<(u64, u64)>,
) -> Result<TlsStep, &'static str> {
    match tls_ready(t, free) {
        None => Err("PE: out of frames (TLS)"),
        Some((t1, free1)) => match tls_block(t1, base, img, m) {
            Err(e) => Err(e),
            Ok(t2) => match tls_patched(img, base, m, t1.n_mods, cbs) {
                Err(e) => Err(e),
                Ok((img2, cbs2)) => Ok(TlsStep { tls: t2, free: free1, img: img2, cbs: cbs2 }),
            },
        },
    }
}

impl TlsBuild {
    /// No frame yet, no module.
    pub fn new() -> (r: TlsBuild)
        ensures
            r.wf(),
            r@ == (Tls { frame: 0, page: bytes::zeros(4096), n_mods: 0, blk_next: 0x100 }),
    {
        TlsBuild { frame: 0, page: crate::bytes::zeroed(4096), n_mods: 0, blk_next: 0x100 }
    }

    /// Copy the module's template into a block of its own.
    fn take_block(&mut self, base: u64, img: &Vec<u8>, m: &TlsInfo) -> (r: Result<(), &'static str>)
        requires
            old(self).wf(),
        ensures
            final(self).wf(),
            match tls_block(old(self)@, base, img@, *m) {
                Ok(t) => r is Ok && final(self)@ == t,
                Err(e) => r == Err::<(), &'static str>(e),
            },
    {
        let len: usize = img.len();
        if self.n_mods >= MAX_TLS_MODS {
            return Err("PE: too many TLS modules");
        }
        if m.raw_start_va < base {
            return Err("PE: TLS data before base");
        }
        if m.raw_end_va < m.raw_start_va {
            return Err("PE: bad TLS range");
        }
        let raw_off: u64 = m.raw_start_va - base;
        let raw_len: u64 = m.raw_end_va - m.raw_start_va;
        if raw_len > 4096 || m.zero_fill > 4096 || self.blk_next as u64 + raw_len
            + m.zero_fill as u64 > 4096 {
            return Err("PE: static TLS overflows its page");
        }
        if raw_off > len as u64 || raw_len > len as u64 - raw_off {
            return Err("PE: TLS template out of range");
        }
        let src = crate::bytes::sub(img.as_slice(), raw_off as usize, (raw_off + raw_len) as usize);
        let total: usize = raw_len as usize + m.zero_fill as usize;
        put(&mut self.page, self.blk_next, src.as_slice());
        let at: usize = self.n_mods * 8;
        put64(&mut self.page, at, crate::pe_pages::PE_TLS_ADDR + self.blk_next as u64);
        self.n_mods = self.n_mods + 1;
        self.blk_next = (self.blk_next + total + 15) / 16 * 16;
        Ok(())
    }
}

/// Write the module's TLS index and collect its callbacks.
fn patch_tls(
    img: &mut Vec<u8>,
    base: u64,
    m: &TlsInfo,
    idx: usize,
    cbs: &mut Vec<(u64, u64)>,
) -> (r: Result<(), &'static str>)
    requires
        idx <= 24,
    ensures
        final(img)@.len() == old(img)@.len(),
        match tls_patched(old(img)@, base, *m, idx as int, old(cbs)@) {
            Ok((i, c)) => r is Ok && final(img)@ == i && final(cbs)@ == c,
            Err(e) => r == Err::<(), &'static str>(e),
        },
{
    let len: usize = img.len();
    if m.index_ptr_va < base {
        return Err("PE: TLS index ptr before base");
    }
    let ix: u64 = m.index_ptr_va - base;
    if len < 4 || ix > len as u64 - 4 {
        return Err("PE: TLS index ptr out of range");
    }
    put32(img, ix as usize, idx as u32);
    if m.callbacks_va == 0 {
        return Ok(());
    }
    if m.callbacks_va < base {
        return Err("PE: TLS callbacks before base");
    }
    let ghost cbs0 = cbs@;
    let mut off: u64 = m.callbacks_va - base;
    let mut left: u64 = 64;
    while left > 0
        invariant
            len == img@.len(),
            left <= 64,
            with_callbacks(cbs0, img@, base, m.callbacks_va - base, 64) == with_callbacks(
                cbs@,
                img@,
                base,
                off as int,
                left as nat,
            ),
        ensures
            with_callbacks(cbs0, img@, base, m.callbacks_va - base, 64) == cbs@,
        decreases left,
    {
        if len < 8 || off > len as u64 - 8 {
            break;
        }
        let f: u64 = load64(img.as_slice(), off as usize);
        if f == 0 {
            break;
        }
        cbs.push((base, f));
        off = off + 8;
        left = left - 1;
    }
    Ok(())
}

/// Give one module its static-TLS block: copy its template, write its index
/// into its image (before that is mapped), and queue its callbacks.
pub fn tls_add_module(
    tls: &mut TlsBuild,
    fa: &mut FrameAllocator,
    base: u64,
    img: &mut Vec<u8>,
    m: &TlsInfo,
    cbs: &mut Vec<(u64, u64)>,
) -> (r: Result<(), &'static str>)
    requires
        old(tls).wf(),
    ensures
        final(tls).wf(),
        final(img)@.len() == old(img)@.len(),
        match tls_added(old(tls)@, old(fa)@, base, old(img)@, *m, old(cbs)@) {
            Ok(st) => {
                &&& r is Ok
                &&& final(tls)@ == st.tls
                &&& final(fa)@ == st.free
                &&& final(img)@ == st.img
                &&& final(cbs)@ == st.cbs
            },
            Err(e) => r == Err::<(), &'static str>(e),
        },
{
    reveal(tls_added);
    if tls.frame == 0 {
        match fa.alloc_frame() {
            Some(f) => {
                tls.frame = f;
                tls.page = crate::bytes::zeroed(4096);
            },
            None => { return Err("PE: out of frames (TLS)"); },
        }
    }
    let ghost t1 = tls@;
    let idx: usize = tls.n_mods;
    match tls.take_block(base, img, m) {
        Ok(()) => {},
        Err(e) => { return Err(e); },
    }
    patch_tls(img, base, m, idx, cbs)
}

// --- modules ---

/// A module resolved for the process: a synthetic system module or a library
/// from a file. Its exports are final as soon as its base is known.
pub struct LoadedModule {
    pub name: Vec<char>,
    pub base: u64,
    pub size: u64,
    /// 0: none.
    pub entry: u64,
    pub eat: Vec<Export>,
    pub ord_base: u32,
    /// Each name with its slot; of two equal names the later one counts.
    pub names: Vec<(Vec<char>, usize)>,
    pub is_file: bool,
}

#[verifier::ext_equal]
pub struct Mod {
    pub name: Seq<char>,
    pub base: u64,
    pub size: u64,
    pub entry: u64,
    pub eat: Seq<Exp>,
    pub ord_base: u32,
    pub names: Seq<(Seq<char>, usize)>,
    pub is_file: bool,
}

impl View for LoadedModule {
    type V = Mod;

    open spec fn view(&self) -> Mod {
        Mod {
            name: self.name@,
            base: self.base,
            size: self.size,
            entry: self.entry,
            eat: exps(self.eat@),
            ord_base: self.ord_base,
            names: name_rows(self.names@),
            is_file: self.is_file,
        }
    }
}

pub open spec fn mods_of(v: Seq<LoadedModule>) -> Seq<Mod> {
    v.map_values(|m: LoadedModule| m@)
}

/// The first module called `name` from place `k` on.
pub open spec fn module_named(mods: Seq<Mod>, name: Seq<char>, k: int) -> Option<int>
    decreases mods.len() - k,
{
    if k >= mods.len() {
        None
    } else if mods[k].name == name {
        Some(k)
    } else {
        module_named(mods, name, k + 1)
    }
}

/// The slot of the last of the first `n` rows called `name`.
pub open spec fn slot_named(names: Seq<(Seq<char>, usize)>, name: Seq<char>, n: int) -> Option<usize>
    decreases n,
{
    if n <= 0 {
        None
    } else if names[n - 1].0 == name {
        Some(names[n - 1].1)
    } else {
        slot_named(names, name, n - 1)
    }
}

/// The loader: the address where the next library goes, the modules, the TLS
/// page, and the TLS callbacks in the order they run.
pub struct Loader {
    pub arena_next: u64,
    pub mods: Vec<LoadedModule>,
    pub tls: TlsBuild,
    pub tls_cbs: Vec<(u64, u64)>,
}

/// The loader's state together with the address space and the free frames.
#[verifier::ext_equal]
pub struct Ld {
    pub arena: u64,
    pub mods: Seq<Mod>,
    pub tls: Tls,
    pub cbs: Seq<(u64, u64)>,
    pub space: Space,
    pub free: Seq<u64>,
}

impl Loader {
    pub open spec fn wf(self) -> bool {
        &&& self.arena_next <= crate::pe_pages::PE_DLL_ARENA_END
        &&& self.tls.wf()
    }

    pub open spec fn with(self, proc: Process, fa: FrameAllocator) -> Ld {
        Ld {
            arena: self.arena_next,
            mods: mods_of(self.mods@),
            tls: self.tls@,
            cbs: self.tls_cbs@,
            space: proc@,
            free: fa@,
        }
    }
}

/// The slot for a library of `size` bytes, in 64 KiB steps: where it starts
/// and where the next one goes.
pub open spec fn arena_slot(next: u64, size: u64) -> Option<(u64, u64)> {
    let end = next + (size + 0xFFFF) / 0x10000 * 0x10000;
    if end < crate::pe_pages::PE_DLL_ARENA_END {
        Some((next, end as u64))
    } else {
        None
    }
}

/// How far a forwarder chain may still go.
pub open spec fn forwards_left(f: int) -> int {
    if f <= 9 {
        2 * (9 - f)
    } else {
        0
    }
}

pub open spec fn depth_left(d: int) -> int {
    if d <= 8 {
        8 - d
    } else {
        0
    }
}

/// The path of a library on the disk.
pub open spec fn library_path(name: Seq<char>) -> Seq<char> {
    "/Windows/System32/"@ + name
}

/// The index of the module that `raw` names, loaded from the disk on a miss.
pub open spec fn module_resolved(disk: Seq<u8>, st: Ld, d: int, raw: Seq<char>) -> Result<
    (Ld, int),
    &'static str,
>
    decreases depth_left(d), 0int, 0int,
{
    let name = pe::dll_name(raw);
    match module_named(st.mods, name, 0) {
        Some(i) => Ok((st, i)),
        None => if d >= 8 {
            Err("PE: DLL dependency chain too deep")
        } else {
            match crate::ext2::opened(disk) {
                Err(_) => Err("PE: cannot mount fs for DLL load"),
                Ok(fs) => match crate::ext2::path_data(
                    disk,
                    fs,
                    vstd::utf8::encode_utf8(library_path(name)),
                ) {
                    Err(e) => Err(e),
                    Ok(None) => Err("PE: DLL not found in System32"),
                    Ok(Some(file)) => dll_loaded(disk, st, d + 1, name, file),
                },
            }
        },
    }
}

/// The module a staged library is registered as.
pub open spec fn registered(
    name: Seq<char>,
    sg: pe::Staged,
    t: (Seq<Exp>, u32, Seq<(Seq<char>, usize)>),
) -> Mod {
    Mod {
        name,
        base: sg.load_base,
        size: sg.size_of_image,
        entry: if sg.entry != sg.load_base {
            sg.entry
        } else {
            0
        },
        eat: t.0,
        ord_base: t.1,
        names: t.2,
        is_file: true,
    }
}

/// The TLS of a bound module added, where it has any, and the module mapped.
pub open spec fn finished(st: Ld, sg: pe::Staged, img: Seq<u8>) -> Result<Ld, &'static str> {
    let added = match sg.tls {
        None => Ok(TlsStep { tls: st.tls, free: st.free, img, cbs: st.cbs }),
        Some(m) => tls_added(st.tls, st.free, sg.load_base, img, m, st.cbs),
    };
    match added {
        Err(e) => Err(e),
        Ok(a) => match image_mapped(st.space, a.free, a.img, sg.load_base, sg.hdr_n, sg.segs) {
            Err(e) => Err(e),
            Ok((space, free)) => Ok(Ld { tls: a.tls, cbs: a.cbs, space, free, ..st }),
        },
    }
}

/// Stage, register, bind and map one library. It is registered before its own
/// imports are resolved, so a cycle of imports ends.
pub open spec fn dll_loaded(disk: Seq<u8>, st: Ld, d: int, name: Seq<char>, file: Seq<u8>) -> Result<
    (Ld, int),
    &'static str,
>
    decreases depth_left(d), 4int, 0int,
{
    match pe::image_size(file) {
        Err(e) => Err(e),
        Ok(size) => match arena_slot(st.arena, size) {
            None => Err("PE: DLL arena exhausted"),
            Some((base, end)) => match pe::staged(file, Some(base)) {
                Err(e) => Err(e),
                Ok(sg) => match export_table(sg.img, base, sg.export.0, sg.export.1) {
                    Err(e) => Err(e),
                    Ok(t) => {
                        let st1 = Ld {
                            arena: end,
                            mods: st.mods.push(registered(name, sg, t)),
                            ..st
                        };
                        let bound = if sg.import.1 != 0 {
                            imports_bound(
                                disk,
                                st1,
                                d,
                                sg.img,
                                sg.size_of_image as int,
                                sg.import.0 as int,
                            )
                        } else {
                            Ok((st1, sg.img))
                        };
                        match bound {
                            Err(e) => Err(e),
                            Ok((st2, img)) => match finished(st2, sg, img) {
                                Err(e) => Err(e),
                                Ok(st3) => Ok((st3, st.mods.len() as int)),
                            },
                        }
                    },
                },
            },
        },
    }
}

/// The import descriptors from `idt` on obeyed: every slot of every import
/// address table holds the address it stands for.
pub open spec fn imports_bound(
    disk: Seq<u8>,
    st: Ld,
    d: int,
    img: Seq<u8>,
    soi: int,
    idt: int,
) -> Result<(Ld, Seq<u8>), &'static str>
    decreases depth_left(d), 3int, soi - idt,
{
    let ilt = bytes::le32(img, idt) as int;
    let name = bytes::le32(img, idt + 12) as int;
    let iat = bytes::le32(img, idt + 16) as int;
    if idt + 20 > soi || idt + 20 > img.len() {
        Err("PE: import table truncated")
    } else if name == 0 && iat == 0 {
        Ok((st, img))
    } else {
        match pe::cstr(img, name) {
            Err(e) => Err(e),
            Ok(dll) => match module_resolved(disk, st, d, dll) {
                Err(e) => Err(e),
                Ok((st2, mi)) => match thunks_bound(
                    disk,
                    st2,
                    d,
                    img,
                    soi,
                    mi,
                    if ilt != 0 {
                        ilt
                    } else {
                        iat
                    },
                    iat,
                    0,
                ) {
                    Err(e) => Err(e),
                    Ok((st3, img3)) => imports_bound(disk, st3, d, img3, soi, idt + 20),
                },
            },
        }
    }
}

/// The thunks from the `i`-th on: each is read at `names` and its address
/// written at `iat`, up to the null thunk.
pub open spec fn thunks_bound(
    disk: Seq<u8>,
    st: Ld,
    d: int,
    img: Seq<u8>,
    soi: int,
    mi: int,
    names: int,
    iat: int,
    i: int,
) -> Result<(Ld, Seq<u8>), &'static str>
    decreases depth_left(d), 2int, soi - names - 8 * i,
{
    let t = names + i * 8;
    let p = iat + i * 8;
    let thunk = bytes::le64(img, t);
    if t + 8 > soi || t + 8 > img.len() || p + 8 > soi || p + 8 > img.len() {
        Err("PE: import thunk out of range")
    } else if thunk == 0 {
        Ok((st, img))
    } else {
        let found = if thunk >= 0x8000_0000_0000_0000 {
            ordinal_resolved(disk, st, d, mi, (thunk % 0x10000) as int, 0)
        } else {
            match pe::cstr(img, thunk % 0x8000_0000 + 2) {
                Err(e) => Err(e),
                Ok(f) => name_resolved(disk, st, d, mi, f, 0),
            }
        };
        match found {
            Err(e) => Err(e),
            Ok((st2, a)) => thunks_bound(
                disk,
                st2,
                d,
                bytes::splice(img, p, bytes::bytes64(a)),
                soi,
                mi,
                names,
                iat,
                i + 1,
            ),
        }
    }
}

/// The address of the export called `name`, forwarders followed.
pub open spec fn name_resolved(
    disk: Seq<u8>,
    st: Ld,
    d: int,
    mi: int,
    name: Seq<char>,
    f: int,
) -> Result<(Ld, u64), &'static str>
    decreases depth_left(d), 1int, forwards_left(f) + 1,
{
    match slot_named(st.mods[mi].names, name, st.mods[mi].names.len() as int) {
        None => Err("PE: name not exported"),
        Some(i) => slot_resolved(disk, st, d, mi, i as int, f),
    }
}

/// The address of the export with ordinal `ord`, forwarders followed.
pub open spec fn ordinal_resolved(
    disk: Seq<u8>,
    st: Ld,
    d: int,
    mi: int,
    ord: int,
    f: int,
) -> Result<(Ld, u64), &'static str>
    decreases depth_left(d), 1int, forwards_left(f) + 1,
{
    if ord < st.mods[mi].ord_base {
        Err("PE: ordinal below Base")
    } else {
        slot_resolved(disk, st, d, mi, ord - st.mods[mi].ord_base, f)
    }
}

/// The address of the export in slot `i`, forwarders followed.
pub open spec fn slot_resolved(disk: Seq<u8>, st: Ld, d: int, mi: int, i: int, f: int) -> Result<
    (Ld, u64),
    &'static str,
>
    decreases depth_left(d), 1int, forwards_left(f),
{
    if f > 8 {
        Err("PE: forwarder chain too deep")
    } else if i >= st.mods[mi].eat.len() {
        Err("PE: ordinal out of range")
    } else {
        match st.mods[mi].eat[i] {
            Exp::Addr(a) => Ok((st, a)),
            Exp::Empty => Err("PE: empty export slot"),
            Exp::Forward(s) => match text::last_at(s, '.', s.len() as int) {
                None => Err("PE: bad forwarder"),
                Some(dot) => {
                    let fun = s.skip(dot + 1);
                    match module_resolved(disk, st, d, s.take(dot)) {
                        Err(e) => Err(e),
                        Ok((st2, tm)) => if fun.len() > 0 && fun[0] == '#' {
                            match text::u16_of(fun.skip(1)) {
                                None => Err("PE: bad forwarder ordinal"),
                                Some(o) => ordinal_resolved(disk, st2, d, tm, o as int, f + 1),
                            }
                        } else {
                            name_resolved(disk, st2, d, tm, fun, f + 1)
                        },
                    }
                },
            },
        }
    }
}

impl Loader {
    fn find_module(&self, name: &Vec<char>) -> (r: Option<usize>)
        ensures
            match module_named(mods_of(self.mods@), name@, 0) {
                Some(i) => r is Some && r->0 == i && i < self.mods@.len(),
                None => r is None,
            },
    {
        let n: usize = self.mods.len();
        let mut k: usize = 0;
        while k < n
            invariant
                k <= n,
                n == self.mods@.len(),
                module_named(mods_of(self.mods@), name@, 0) == module_named(
                    mods_of(self.mods@),
                    name@,
                    k as int,
                ),
            decreases n - k,
        {
            assert(mods_of(self.mods@)[k as int] == self.mods@[k as int]@);
            if crate::text::same_chars(self.mods[k].name.as_slice(), name.as_slice()) {
                return Some(k);
            }
            k = k + 1;
        }
        None
    }

    #[verifier::loop_isolation(false)]
    fn find_slot(&self, mi: usize, name: &[char]) -> (r: Option<usize>)
        requires
            mi < self.mods@.len(),
        ensures
            r == slot_named(
                mods_of(self.mods@)[mi as int].names,
                name@,
                mods_of(self.mods@)[mi as int].names.len() as int,
            ),
    {
        let m = &self.mods[mi];
        assert(mods_of(self.mods@)[mi as int] == m@);
        let mut n: usize = m.names.len();
        while n > 0
            invariant
                n <= m.names@.len(),
                slot_named(name_rows(m.names@), name@, m.names@.len() as int) == slot_named(
                    name_rows(m.names@),
                    name@,
                    n as int,
                ),
            decreases n,
        {
            assert(name_rows(m.names@)[n - 1] == (m.names@[n - 1].0@, m.names@[n - 1].1));
            if crate::text::same_chars(m.names[n - 1].0.as_slice(), name) {
                return Some(m.names[n - 1].1);
            }
            n = n - 1;
        }
        None
    }

    /// Take an arena slot for a library of `size` bytes.
    pub fn arena_alloc(&mut self, size: u64) -> (r: Result<u64, &'static str>)
        requires
            old(self).wf(),
            size <= crate::pe::MAX_IMAGE_SIZE,
        ensures
            final(self).wf(),
            match arena_slot(old(self).arena_next, size) {
                Some((base, end)) => {
                    &&& r == Ok::<u64, &'static str>(base)
                    &&& *final(self) == (Loader { arena_next: end, ..*old(self) })
                },
                None => r == Err::<u64, &'static str>("PE: DLL arena exhausted") && *final(self)
                    == *old(self),
            },
    {
        let base: u64 = self.arena_next;
        let end: u64 = base + (size + 0xFFFF) / 0x10000 * 0x10000;
        if end < crate::pe_pages::PE_DLL_ARENA_END {
            self.arena_next = end;
            Ok(base)
        } else {
            Err("PE: DLL arena exhausted")
        }
    }

    /// The index of the module that `raw` names, loading it on a miss.
    pub fn resolve_module(
        &mut self,
        proc: &mut Process,
        fa: &mut FrameAllocator,
        disk: &[u8],
        depth: u32,
        raw: &str,
    ) -> (r: Result<usize, &'static str>)
        requires
            old(self).wf(),
            old(proc).wf(),
            depth <= 8,
        ensures
            final(self).wf(),
            final(proc).wf(),
            final(proc).pml4() == old(proc).pml4(),
            final(self).mods@.len() >= old(self).mods@.len(),
            match module_resolved(disk@, old(self).with(*old(proc), *old(fa)), depth as int, raw@) {
                Ok((st, i)) => {
                    &&& r is Ok
                    &&& r->Ok_0 == i
                    &&& i < final(self).mods@.len()
                    &&& final(self).with(*final(proc), *final(fa)) == st
                },
                Err(e) => r == Err::<usize, &'static str>(e),
            },
        decreases 8 - depth, 0int, 0int,
    {
        let ghost st = self.with(*proc, *fa);
        let name = crate::pe::normalize_dll_name(raw);
        let chars = crate::text::chars_of(name.as_str());
        match self.find_module(&chars) {
            Some(i) => { return Ok(i); },
            None => {},
        }
        if depth >= MAX_DLL_DEPTH {
            return Err("PE: DLL dependency chain too deep");
        }
        let fs = match crate::ext2::open(disk) {
            Ok(fs) => fs,
            Err(_) => { return Err("PE: cannot mount fs for DLL load"); },
        };
        let mut path = crate::text::chars_of("/Windows/System32/");
        crate::text::extend_chars(&mut path, chars.as_slice());
        let path = crate::text::string_of(path.as_slice());
        match fs.read_path(disk, path.as_str()) {
            Err(e) => Err(e),
            Ok(None) => Err("PE: DLL not found in System32"),
            Ok(Some(file)) => self.load_dll(
                proc,
                fa,
                disk,
                depth + 1,
                chars.as_slice(),
                file.as_slice(),
            ),
        }
    }

    /// Add the module's TLS, where it has any, and map it.
    fn finish(
        &mut self,
        proc: &mut Process,
        fa: &mut FrameAllocator,
        staged: &mut crate::pe::StagedImage,
        Ghost(sg): Ghost<pe::Staged>,
    ) -> (r: Result<(), &'static str>)
        requires
            old(self).wf(),
            old(proc).wf(),
            old(staged)@ == (pe::Staged { img: old(staged)@.img, ..sg }),
        ensures
            final(self).wf(),
            final(proc).wf(),
            final(proc).pml4() == old(proc).pml4(),
            final(self).mods@ == old(self).mods@,
            final(staged)@ == (pe::Staged { img: final(staged)@.img, ..sg }),
            match finished(old(self).with(*old(proc), *old(fa)), sg, old(staged)@.img) {
                Ok(st) => r is Ok && final(self).with(*final(proc), *final(fa)) == st,
                Err(e) => r == Err::<(), &'static str>(e),
            },
    {
        match &staged.tls {
            Some(m) => {
                match tls_add_module(
                    &mut self.tls,
                    fa,
                    staged.load_base,
                    &mut staged.img,
                    m,
                    &mut self.tls_cbs,
                ) {
                    Ok(()) => {},
                    Err(e) => { return Err(e); },
                }
            },
            None => {},
        }
        map_image(
            proc,
            fa,
            staged.img.as_slice(),
            staged.load_base,
            staged.hdr_n,
            &staged.segs,
        )
    }

    /// Stage, register, bind and map one library.
    pub fn load_dll(
        &mut self,
        proc: &mut Process,
        fa: &mut FrameAllocator,
        disk: &[u8],
        depth: u32,
        name: &[char],
        file: &[u8],
    ) -> (r: Result<usize, &'static str>)
        requires
            old(self).wf(),
            old(proc).wf(),
            depth <= 8,
        ensures
            final(self).wf(),
            final(proc).wf(),
            final(proc).pml4() == old(proc).pml4(),
            final(self).mods@.len() >= old(self).mods@.len(),
            match dll_loaded(
                disk@,
                old(self).with(*old(proc), *old(fa)),
                depth as int,
                name@,
                file@,
            ) {
                Ok((st, i)) => {
                    &&& r is Ok
                    &&& r->Ok_0 == i
                    &&& i < final(self).mods@.len()
                    &&& final(self).with(*final(proc), *final(fa)) == st
                },
                Err(e) => r == Err::<usize, &'static str>(e),
            },
        decreases 8 - depth, 4int, 0int,
    {
        let ghost st0 = self.with(*proc, *fa);
        let size: u64 = match crate::pe::peek_size_of_image(file) {
            Ok(v) => v,
            Err(e) => { return Err(e); },
        };
        let base: u64 = match self.arena_alloc(size) {
            Ok(v) => v,
            Err(e) => { return Err(e); },
        };
        let mut staged = match crate::pe::stage_image(file, Some(base)) {
            Ok(v) => v,
            Err(e) => { return Err(e); },
        };
        let ghost sg = staged@;
        let (eat, ord_base, names) = match parse_export_table(
            staged.img.as_slice(),
            base,
            staged.export_rva,
            staged.export_size,
        ) {
            Ok(v) => v,
            Err(e) => { return Err(e); },
        };
        let idx: usize = self.mods.len();
        let m = LoadedModule {
            name: crate::text::copy_chars(name),
            base,
            size: staged.size_of_image,
            entry: if staged.entry != base { staged.entry } else { 0 },
            eat,
            ord_base,
            names,
            is_file: true,
        };
        proof {
            assert(mods_of(self.mods@.push(m)) =~= mods_of(self.mods@).push(m@));
        }
        self.mods.push(m);
        if staged.import_size != 0 {
            match self.bind_imports(
                proc,
                fa,
                disk,
                depth,
                &mut staged.img,
                staged.import_rva,
                staged.size_of_image,
            ) {
                Ok(()) => {},
                Err(e) => { return Err(e); },
            }
        }
        match self.finish(proc, fa, &mut staged, Ghost(sg)) {
            Ok(()) => Ok(idx),
            Err(e) => Err(e),
        }
    }

    /// Walk an image's import directory and overwrite each import address slot
    /// with its target, pulling in libraries as needed.
    pub fn bind_imports(
        &mut self,
        proc: &mut Process,
        fa: &mut FrameAllocator,
        disk: &[u8],
        depth: u32,
        img: &mut Vec<u8>,
        import_rva: u32,
        size_of_image: u64,
    ) -> (r: Result<(), &'static str>)
        requires
            old(self).wf(),
            old(proc).wf(),
            depth <= 8,
            size_of_image == old(img)@.len(),
            size_of_image <= crate::pe::MAX_IMAGE_SIZE,
        ensures
            final(self).wf(),
            final(proc).wf(),
            final(proc).pml4() == old(proc).pml4(),
            final(self).mods@.len() >= old(self).mods@.len(),
            final(img)@.len() == old(img)@.len(),
            match imports_bound(
                disk@,
                old(self).with(*old(proc), *old(fa)),
                depth as int,
                old(img)@,
                size_of_image as int,
                import_rva as int,
            ) {
                Ok((st, i)) => {
                    &&& r is Ok
                    &&& final(img)@ == i
                    &&& final(self).with(*final(proc), *final(fa)) == st
                },
                Err(e) => r == Err::<(), &'static str>(e),
            },
        decreases 8 - depth, 3int, 0int,
    {
        let ghost st0 = self.with(*proc, *fa);
        let ghost img0 = img@;
        let mut idt: u64 = import_rva as u64;
        loop
            invariant
                self.wf(),
                proc.wf(),
                proc.pml4() == old(proc).pml4(),
                depth <= 8,
                img@.len() == size_of_image,
                img0 == old(img)@,
                size_of_image <= crate::pe::MAX_IMAGE_SIZE,
                self.mods@.len() >= old(self).mods@.len(),
                size_of_image == old(img)@.len(),
                st0 == old(self).with(*old(proc), *old(fa)),
                idt <= u32::MAX + crate::pe::MAX_IMAGE_SIZE,
                imports_bound(
                    disk@,
                    st0,
                    depth as int,
                    img0,
                    size_of_image as int,
                    import_rva as int,
                ) == imports_bound(
                    disk@,
                    self.with(*proc, *fa),
                    depth as int,
                    img@,
                    size_of_image as int,
                    idt as int,
                ),
            decreases size_of_image + 20 - idt,
        {
            if idt + 20 > size_of_image {
                return Err("PE: import table truncated");
            }
            let at: usize = idt as usize;
            let ilt: u32 = load32(img.as_slice(), at);
            let name: u32 = load32(img.as_slice(), at + 12);
            let iat: u32 = load32(img.as_slice(), at + 16);
            if name == 0 && iat == 0 {
                return Ok(());
            }
            let midx: usize = match crate::pe::cstr_at(img.as_slice(), name as u64) {
                Err(e) => { return Err(e); },
                Ok(dll) => match self.resolve_module(proc, fa, disk, depth, dll) {
                    Err(e) => { return Err(e); },
                    Ok(i) => i,
                },
            };
            match self.bind_thunks(
                proc,
                fa,
                disk,
                depth,
                img,
                midx,
                if ilt != 0 { ilt } else { iat },
                iat,
            ) {
                Err(e) => { return Err(e); },
                Ok(()) => {},
            }
            idt = idt + 20;
        }
    }

    /// Bind the imports of one module.
    fn bind_thunks(
        &mut self,
        proc: &mut Process,
        fa: &mut FrameAllocator,
        disk: &[u8],
        depth: u32,
        img: &mut Vec<u8>,
        midx: usize,
        names_rva: u32,
        iat_rva: u32,
    ) -> (r: Result<(), &'static str>)
        requires
            old(self).wf(),
            old(proc).wf(),
            depth <= 8,
            midx < old(self).mods@.len(),
            old(img)@.len() <= crate::pe::MAX_IMAGE_SIZE,
        ensures
            final(self).wf(),
            final(proc).wf(),
            final(proc).pml4() == old(proc).pml4(),
            final(self).mods@.len() >= old(self).mods@.len(),
            final(img)@.len() == old(img)@.len(),
            match thunks_bound(
                disk@,
                old(self).with(*old(proc), *old(fa)),
                depth as int,
                old(img)@,
                old(img)@.len() as int,
                midx as int,
                names_rva as int,
                iat_rva as int,
                0,
            ) {
                Ok((st, i)) => {
                    &&& r is Ok
                    &&& final(img)@ == i
                    &&& final(self).with(*final(proc), *final(fa)) == st
                },
                Err(e) => r == Err::<(), &'static str>(e),
            },
        decreases 8 - depth, 2int, 0int,
    {
        let ghost st0 = self.with(*proc, *fa);
        let ghost img0 = img@;
        let len: usize = img.len();
        let soi: u64 = len as u64;
        let mut t: u64 = names_rva as u64;
        let mut p: u64 = iat_rva as u64;
        let ghost mut i: int = 0;
        loop
            invariant
                self.wf(),
                proc.wf(),
                proc.pml4() == old(proc).pml4(),
                depth <= 8,
                midx < self.mods@.len(),
                img@.len() == soi,
                img0 == old(img)@,
                soi == old(img)@.len(),
                soi <= crate::pe::MAX_IMAGE_SIZE,
                self.mods@.len() >= old(self).mods@.len(),
                st0 == old(self).with(*old(proc), *old(fa)),
                t == names_rva + i * 8,
                p == iat_rva + i * 8,
                t <= u32::MAX + crate::pe::MAX_IMAGE_SIZE,
                p <= u32::MAX + crate::pe::MAX_IMAGE_SIZE,
                thunks_bound(
                    disk@,
                    st0,
                    depth as int,
                    img0,
                    soi as int,
                    midx as int,
                    names_rva as int,
                    iat_rva as int,
                    0,
                ) == thunks_bound(
                    disk@,
                    self.with(*proc, *fa),
                    depth as int,
                    img@,
                    soi as int,
                    midx as int,
                    names_rva as int,
                    iat_rva as int,
                    i,
                ),
            decreases soi + 8 - t,
        {
            if t + 8 > soi || p + 8 > soi {
                return Err("PE: import thunk out of range");
            }
            let thunk: u64 = load64(img.as_slice(), t as usize);
            if thunk == 0 {
                return Ok(());
            }
            let found = if thunk >= 0x8000_0000_0000_0000 {
                let ord: u16 = (thunk % 0x10000) as u16;
                self.resolve_export_ordinal(proc, fa, disk, depth, midx, ord, 0)
            } else {
                match crate::pe::cstr_at(img.as_slice(), thunk % 0x8000_0000 + 2) {
                    Err(e) => Err(e),
                    Ok(f) => {
                        let fc = crate::text::chars_of(f);
                        self.resolve_export_name(proc, fa, disk, depth, midx, fc.as_slice(), 0)
                    },
                }
            };
            match found {
                Err(e) => { return Err(e); },
                Ok(a) => { put64(img, p as usize, a); },
            }
            t = t + 8;
            p = p + 8;
            proof {
                i = i + 1;
            }
        }
    }

    /// The address of a module's export by name, following forwarders.
    pub fn resolve_export_name(
        &mut self,
        proc: &mut Process,
        fa: &mut FrameAllocator,
        disk: &[u8],
        depth: u32,
        midx: usize,
        name: &[char],
        hops: u32,
    ) -> (r: Result<u64, &'static str>)
        requires
            old(self).wf(),
            old(proc).wf(),
            depth <= 8,
            hops <= 9,
            midx < old(self).mods@.len(),
        ensures
            final(self).wf(),
            final(proc).wf(),
            final(proc).pml4() == old(proc).pml4(),
            final(self).mods@.len() >= old(self).mods@.len(),
            match name_resolved(
                disk@,
                old(self).with(*old(proc), *old(fa)),
                depth as int,
                midx as int,
                name@,
                hops as int,
            ) {
                Ok((st, a)) => {
                    &&& r == Ok::<u64, &'static str>(a)
                    &&& final(self).with(*final(proc), *final(fa)) == st
                },
                Err(e) => r == Err::<u64, &'static str>(e),
            },
        decreases 8 - depth, 1int, forwards_left(hops as int) + 1,
    {
        match self.find_slot(midx, name) {
            None => Err("PE: name not exported"),
            Some(i) => self.resolve_export_idx(proc, fa, disk, depth, midx, i, hops),
        }
    }

    /// The address of a module's export by ordinal, following forwarders.
    pub fn resolve_export_ordinal(
        &mut self,
        proc: &mut Process,
        fa: &mut FrameAllocator,
        disk: &[u8],
        depth: u32,
        midx: usize,
        ord: u16,
        hops: u32,
    ) -> (r: Result<u64, &'static str>)
        requires
            old(self).wf(),
            old(proc).wf(),
            depth <= 8,
            hops <= 9,
            midx < old(self).mods@.len(),
        ensures
            final(self).wf(),
            final(proc).wf(),
            final(proc).pml4() == old(proc).pml4(),
            final(self).mods@.len() >= old(self).mods@.len(),
            match ordinal_resolved(
                disk@,
                old(self).with(*old(proc), *old(fa)),
                depth as int,
                midx as int,
                ord as int,
                hops as int,
            ) {
                Ok((st, a)) => {
                    &&& r == Ok::<u64, &'static str>(a)
                    &&& final(self).with(*final(proc), *final(fa)) == st
                },
                Err(e) => r == Err::<u64, &'static str>(e),
            },
        decreases 8 - depth, 1int, forwards_left(hops as int) + 1,
    {
        assert(mods_of(self.mods@)[midx as int] == self.mods@[midx as int]@);
        let base: u32 = self.mods[midx].ord_base;
        if (ord as u32) < base {
            return Err("PE: ordinal below Base");
        }
        self.resolve_export_idx(proc, fa, disk, depth, midx, (ord as u32 - base) as usize, hops)
    }

    /// The address of the export in slot `i`, following forwarders.
    pub fn resolve_export_idx(
        &mut self,
        proc: &mut Process,
        fa: &mut FrameAllocator,
        disk: &[u8],
        depth: u32,
        midx: usize,
        i: usize,
        hops: u32,
    ) -> (r: Result<u64, &'static str>)
        requires
            old(self).wf(),
            old(proc).wf(),
            depth <= 8,
            hops <= 9,
            midx < old(self).mods@.len(),
        ensures
            final(self).wf(),
            final(proc).wf(),
            final(proc).pml4() == old(proc).pml4(),
            final(self).mods@.len() >= old(self).mods@.len(),
            match slot_resolved(
                disk@,
                old(self).with(*old(proc), *old(fa)),
                depth as int,
                midx as int,
                i as int,
                hops as int,
            ) {
                Ok((st, a)) => {
                    &&& r == Ok::<u64, &'static str>(a)
                    &&& final(self).with(*final(proc), *final(fa)) == st
                },
                Err(e) => r == Err::<u64, &'static str>(e),
            },
        decreases 8 - depth, 1int, forwards_left(hops as int),
    {
        if hops > 8 {
            return Err("PE: forwarder chain too deep");
        }
        assert(mods_of(self.mods@)[midx as int] == self.mods@[midx as int]@);
        let m = &self.mods[midx];
        if i >= m.eat.len() {
            return Err("PE: ordinal out of range");
        }
        assert(exps(m.eat@)[i as int] == m.eat@[i as int]@);
        let s: Vec<char> = match &m.eat[i] {
            Export::Addr(a) => { return Ok(*a); },
            Export::Empty => { return Err("PE: empty export slot"); },
            Export::Forward(s) => crate::text::copy_chars(s.as_slice()),
        };
        let dot: usize = match crate::text::find_last(s.as_slice(), '.') {
            Some(d) => d,
            None => { return Err("PE: bad forwarder"); },
        };
        let n: usize = s.len();
        let dll = vstd::slice::slice_subrange(s.as_slice(), 0, dot);
        let fun = vstd::slice::slice_subrange(s.as_slice(), dot + 1, n);
        assert(dll@ =~= s@.take(dot as int));
        assert(fun@ =~= s@.skip(dot + 1));
        let dll_name = crate::text::string_of(dll);
        let tm: usize = match self.resolve_module(proc, fa, disk, depth, dll_name.as_str()) {
            Ok(v) => v,
            Err(e) => { return Err(e); },
        };
        let len: usize = fun.len();
        if len > 0 && fun[0] == '#' {
            let num = vstd::slice::slice_subrange(fun, 1, len);
            assert(num@ =~= fun@.skip(1));
            match crate::text::parse_u16(num) {
                None => Err("PE: bad forwarder ordinal"),
                Some(o) => self.resolve_export_ordinal(proc, fa, disk, depth, tm, o, hops + 1),
            }
        } else {
            self.resolve_export_name(proc, fa, disk, depth, tm, fun, hops + 1)
        }
    }
}

// --- the whole process ---

/// The C runtime's export table: the names, the selector bit of its calls,
/// and which exports are data.
pub struct CrtTable<'a> {
    pub exports: &'a [&'a str],
    pub flag: u16,
    pub data: &'a [u16],
}

/// A loaded program.
pub struct PeImage {
    pub entry: u64,
    /// The thread's `gs` base.
    pub teb: u64,
    pub base: u64,
    pub size: u64,
}

/// A synthetic module: slot `i` is trampoline `i`, named `exports[i]`.
pub open spec fn synth_mod(name: Seq<char>, base: u64, exports: Seq<&str>) -> Mod {
    Mod {
        name,
        base,
        size: 0x1000,
        entry: 0,
        eat: Seq::new(exports.len(), |i: int| Exp::Addr((base + 0x180 + i * 16) as u64)),
        ord_base: 1,
        names: Seq::new(exports.len(), |i: int| (exports[i]@, i as usize)),
        is_file: false,
    }
}

/// The C runtime, whose `_initterm` is code of its own rather than a call.
pub open spec fn crt_mod(exports: Seq<&str>) -> Mod {
    let m = synth_mod("msvcrt.dll"@, crate::pe_pages::PE_MSVCRT_ADDR, exports);
    Mod { eat: m.eat.update(12, Exp::Addr(crate::pe_pages::PE_INITTERM_ADDR)), ..m }
}

pub open spec fn fresh(exports: Seq<&str>, space: Space, free: Seq<u64>) -> Ld {
    Ld {
        arena: crate::pe_pages::PE_DLL_ARENA,
        mods: seq![
            synth_mod("kernel32.dll"@, crate::pe_pages::PE_KERNEL32_ADDR, crate::nt::NT_EXPORTS@),
            synth_mod("ntdll.dll"@, crate::pe_pages::PE_NTDLL_ADDR, crate::nt::NTDLL_EXPORTS@),
            crt_mod(exports),
        ],
        tls: Tls { frame: 0, page: bytes::zeros(4096), n_mods: 0, blk_next: 0x100 },
        cbs: Seq::empty(),
        space,
        free,
    }
}

fn make_synth(name: &str, base: u64, exports: &[&str]) -> (m: LoadedModule)
    requires
        base < 0x8000_0000_0000_0000,
        exports@.len() <= 0xFFFF,
    ensures
        m@ == synth_mod(name@, base, exports@),
        m.eat@.len() == exports@.len(),
{
    let n: usize = exports.len();
    let mut eat: Vec<Export> = Vec::new();
    let mut names: Vec<(Vec<char>, usize)> = Vec::new();
    let mut i: usize = 0;
    while i < n
        invariant
            i <= n,
            n == exports@.len(),
            n <= 0xFFFF,
            base < 0x8000_0000_0000_0000,
            eat@.len() == i,
            names@.len() == i,
            forall|j: int|
                0 <= j < i ==> (#[trigger] eat@[j])@ == Exp::Addr((base + 0x180 + j * 16) as u64),
            forall|j: int|
                0 <= j < i ==> (#[trigger] names@[j]).0@ == exports@[j]@ && names@[j].1 == j,
        decreases n - i,
    {
        eat.push(Export::Addr(base + 0x180 + i as u64 * 16));
        names.push((crate::text::chars_of(exports[i]), i));
        i = i + 1;
    }
    let m = LoadedModule {
        name: crate::text::chars_of(name),
        base,
        size: 0x1000,
        entry: 0,
        eat,
        ord_base: 1,
        names,
        is_file: false,
    };
    proof {
        let w = synth_mod(name@, base, exports@);
        assert(exps(m.eat@) =~= w.eat);
        assert(name_rows(m.names@) =~= w.names);
    }
    m
}

impl Loader {
    /// A loader that knows the three synthetic modules.
    pub fn new(crt: &CrtTable) -> (r: Loader)
        requires
            12 < crt.exports@.len() <= 0xFFFF,
        ensures
            r.wf(),
            forall|p: Process, fa: FrameAllocator| #[trigger]
                r.with(p, fa) == fresh(crt.exports@, p@, fa@),
    {
        let k = make_synth(
            "kernel32.dll",
            crate::pe_pages::PE_KERNEL32_ADDR,
            crate::nt::NT_EXPORTS.as_slice(),
        );
        let n = make_synth(
            "ntdll.dll",
            crate::pe_pages::PE_NTDLL_ADDR,
            crate::nt::NTDLL_EXPORTS.as_slice(),
        );
        let mut c = make_synth("msvcrt.dll", crate::pe_pages::PE_MSVCRT_ADDR, crt.exports);
        let ghost c0 = c@;
        c.eat.set(12, Export::Addr(crate::pe_pages::PE_INITTERM_ADDR));
        assert(exps(c.eat@) =~= crt_mod(crt.exports@).eat);
        let mods: Vec<LoadedModule> = vec![k, n, c];
        let r = Loader {
            arena_next: crate::pe_pages::PE_DLL_ARENA,
            mods,
            tls: TlsBuild::new(),
            tls_cbs: Vec::new(),
        };
        proof {
            assert forall|p: Process, fa: FrameAllocator| #[trigger]
                r.with(p, fa) == fresh(crt.exports@, p@, fa@) by {
                assert(r.with(p, fa).mods =~= fresh(crt.exports@, p@, fa@).mods);
                assert(r.with(p, fa).cbs =~= Seq::empty());
            }
        }
        r
    }
}

/// A page to map on a fresh frame, or why it cannot be built; `err` says that
/// no frame was left.
pub struct PagePlan {
    pub va: u64,
    pub bytes: Result<Seq<u8>, &'static str>,
    pub writable: bool,
    pub executable: bool,
    pub err: &'static str,
}

/// The page mapped, where what came before it went well.
pub open spec fn then_page(r: Result<(Space, Seq<u64>), &'static str>, p: PagePlan) -> Result<
    (Space, Seq<u64>),
    &'static str,
> {
    match r {
        Err(e) => Err(e),
        Ok((s, free)) => if free.len() == 0 {
            Err(p.err)
        } else {
            match p.bytes {
                Err(e) => Err(e),
                Ok(b) => Ok(
                    (
                        Space {
                            mem: process::with_page(s.mem, process::page_of(p.va as int), b),
                            pages: s.pages.insert(
                                process::page_of(p.va as int),
                                process::PageInfo {
                                    frame: mm::down(free.last() as int, 4096) as u64,
                                    writable: p.writable,
                                    executable: p.executable,
                                },
                            ),
                            ..s
                        },
                        free.drop_last(),
                    ),
                ),
            }
        },
    }
}

/// Map one page on a fresh frame.
fn put_page(
    proc: &mut Process,
    fa: &mut FrameAllocator,
    va: u64,
    bytes: Result<Vec<u8>, &'static str>,
    writable: bool,
    executable: bool,
    err: &'static str,
) -> (r: Result<(), &'static str>)
    requires
        old(proc).wf(),
        bytes is Ok ==> bytes->Ok_0@.len() == 4096,
    ensures
        final(proc).wf(),
        final(proc).pml4() == old(proc).pml4(),
        ({
            let plan = PagePlan {
                va,
                bytes: match bytes {
                    Ok(b) => Ok(b@),
                    Err(e) => Err(e),
                },
                writable,
                executable,
                err,
            };
            match then_page(Ok((old(proc)@, old(fa)@)), plan) {
                Ok((s, free)) => r is Ok && final(proc)@ == s && final(fa)@ == free,
                Err(e) => r == Err::<(), &'static str>(e),
            }
        }),
{
    if fa.free_frames() == 0 {
        return Err(err);
    }
    match bytes {
        Err(e) => Err(e),
        Ok(b) => {
            let _ok = proc.map_fresh(fa, va, b, writable, executable);
            Ok(())
        },
    }
}

/// A synthetic module's page, or why it cannot be built.
pub open spec fn synth_bytes(
    base: u64,
    dll: Seq<char>,
    exports: Seq<&str>,
    flag: u16,
    data: Seq<u16>,
) -> Result<Seq<u8>, &'static str> {
    let d = vstd::utf8::encode_utf8(dll);
    let names = process::utf8_of(exports);
    if crate::pe_pages::synth_overflows(d, names) {
        Err("PE: synthetic DLL overflows its page")
    } else {
        Ok(crate::pe_pages::synth_page(base, d, names, flag, data))
    }
}

/// The pages every PE process has: the three synthetic modules, the C
/// runtime's data and `_initterm`, and the exception, APC and thread code.
/// `term` is the service that ends a thread.
#[verifier::opaque]
pub open spec fn system_pages(
    s: Space,
    free: Seq<u64>,
    exports: Seq<&str>,
    flag: u16,
    data: Seq<u16>,
    term: u16,
) -> Result<(Space, Seq<u64>), &'static str> {
    let r = then_page(
        Ok((s, free)),
        PagePlan {
            va: crate::pe_pages::PE_KERNEL32_ADDR,
            bytes: synth_bytes(
                crate::pe_pages::PE_KERNEL32_ADDR,
                "KERNEL32.DLL"@,
                crate::nt::NT_EXPORTS@,
                0,
                Seq::empty(),
            ),
            writable: false,
            executable: true,
            err: "PE: out of frames (synth dll)",
        },
    );
    let r = then_page(
        r,
        PagePlan {
            va: crate::pe_pages::PE_NTDLL_ADDR,
            bytes: synth_bytes(
                crate::pe_pages::PE_NTDLL_ADDR,
                "NTDLL.DLL"@,
                crate::nt::NTDLL_EXPORTS@,
                crate::nt::NT_NTDLL_FLAG,
                Seq::empty(),
            ),
            writable: false,
            executable: true,
            err: "PE: out of frames (synth dll)",
        },
    );
    let r = then_page(
        r,
        PagePlan {
            va: crate::pe_pages::PE_MSVCRT_ADDR,
            bytes: synth_bytes(
                crate::pe_pages::PE_MSVCRT_ADDR,
                "msvcrt.dll"@,
                exports,
                flag,
                data,
            ),
            writable: data.len() > 0,
            executable: true,
            err: "PE: out of frames (synth dll)",
        },
    );
    let r = then_page(
        r,
        PagePlan {
            va: crate::pe_pages::PE_CRT_ADDR,
            bytes: Ok(crate::pe_pages::crt_page()),
            writable: true,
            executable: false,
            err: "PE: out of frames (crt)",
        },
    );
    let r = then_page(
        r,
        PagePlan {
            va: crate::pe_pages::PE_INITTERM_ADDR,
            bytes: Ok(crate::pe_pages::code_page(crate::pe_pages::initterm_code())),
            writable: false,
            executable: true,
            err: "PE: out of frames (initterm)",
        },
    );
    let r = then_page(
        r,
        PagePlan {
            va: crate::seh::PE_EXC_ADDR,
            bytes: Ok(bytes::zeros(4096)),
            writable: true,
            executable: false,
            err: "PE: out of frames (seh slot)",
        },
    );
    let r = then_page(
        r,
        PagePlan {
            va: crate::seh::PE_KIUSER_ADDR,
            bytes: Ok(crate::pe_pages::code_page(crate::pe_pages::seh_code())),
            writable: false,
            executable: true,
            err: "PE: out of frames (KiUser)",
        },
    );
    let r = then_page(
        r,
        PagePlan {
            va: crate::apc::PE_KIUSERAPC_ADDR,
            bytes: Ok(crate::pe_pages::code_page(crate::pe_pages::apc_code())),
            writable: false,
            executable: true,
            err: "PE: out of frames (KiUserApc)",
        },
    );
    then_page(
        r,
        PagePlan {
            va: crate::pe_pages::PE_THREADSTART_ADDR,
            bytes: Ok(crate::pe_pages::code_page(crate::pe_pages::thread_start_code(term))),
            writable: false,
            executable: true,
            err: "PE: out of frames (threadstart)",
        },
    )
}

fn map_synth_dll(
    proc: &mut Process,
    fa: &mut FrameAllocator,
    image_base: u64,
    dll_name: &str,
    exports: &[&str],
    sel_flag: u16,
    data_exports: &[u16],
) -> (r: Result<(), &'static str>)
    requires
        old(proc).wf(),
    ensures
        final(proc).wf(),
        final(proc).pml4() == old(proc).pml4(),
        match then_page(
            Ok((old(proc)@, old(fa)@)),
            PagePlan {
                va: image_base,
                bytes: synth_bytes(image_base, dll_name@, exports@, sel_flag, data_exports@),
                writable: data_exports@.len() > 0,
                executable: true,
                err: "PE: out of frames (synth dll)",
            },
        ) {
            Ok((s, free)) => r is Ok && final(proc)@ == s && final(fa)@ == free,
            Err(e) => r == Err::<(), &'static str>(e),
        },
{
    let page = crate::pe_pages::build_synth(
        image_base,
        dll_name,
        exports,
        sel_flag,
        data_exports,
    );
    put_page(
        proc,
        fa,
        image_base,
        page,
        data_exports.len() > 0,
        true,
        "PE: out of frames (synth dll)",
    )
}

/// Map the pages every PE process has.
pub fn map_system_pages(
    proc: &mut Process,
    fa: &mut FrameAllocator,
    crt: &CrtTable,
    term: u16,
) -> (r: Result<(), &'static str>)
    requires
        old(proc).wf(),
    ensures
        final(proc).wf(),
        final(proc).pml4() == old(proc).pml4(),
        match system_pages(old(proc)@, old(fa)@, crt.exports@, crt.flag, crt.data@, term) {
            Ok((s, free)) => r is Ok && final(proc)@ == s && final(fa)@ == free,
            Err(e) => r == Err::<(), &'static str>(e),
        },
{
    reveal(system_pages);
    let none: [u16; 0] = [];
    assert(none@ =~= Seq::<u16>::empty());
    match map_synth_dll(
        proc,
        fa,
        crate::pe_pages::PE_KERNEL32_ADDR,
        "KERNEL32.DLL",
        crate::nt::NT_EXPORTS.as_slice(),
        0,
        none.as_slice(),
    ) {
        Ok(()) => {},
        Err(e) => { return Err(e); },
    }
    match map_synth_dll(
        proc,
        fa,
        crate::pe_pages::PE_NTDLL_ADDR,
        "NTDLL.DLL",
        crate::nt::NTDLL_EXPORTS.as_slice(),
        crate::nt::NT_NTDLL_FLAG,
        none.as_slice(),
    ) {
        Ok(()) => {},
        Err(e) => { return Err(e); },
    }
    match map_synth_dll(
        proc,
        fa,
        crate::pe_pages::PE_MSVCRT_ADDR,
        "msvcrt.dll",
        crt.exports,
        crt.flag,
        crt.data,
    ) {
        Ok(()) => {},
        Err(e) => { return Err(e); },
    }
    match put_page(
        proc,
        fa,
        crate::pe_pages::PE_CRT_ADDR,
        Ok(crate::pe_pages::build_crt()),
        true,
        false,
        "PE: out of frames (crt)",
    ) {
        Ok(()) => {},
        Err(e) => { return Err(e); },
    }
    match put_page(
        proc,
        fa,
        crate::pe_pages::PE_INITTERM_ADDR,
        Ok(crate::pe_pages::build_initterm()),
        false,
        true,
        "PE: out of frames (initterm)",
    ) {
        Ok(()) => {},
        Err(e) => { return Err(e); },
    }
    match put_page(
        proc,
        fa,
        crate::seh::PE_EXC_ADDR,
        Ok(crate::bytes::zeroed(4096)),
        true,
        false,
        "PE: out of frames (seh slot)",
    ) {
        Ok(()) => {},
        Err(e) => { return Err(e); },
    }
    match put_page(
        proc,
        fa,
        crate::seh::PE_KIUSER_ADDR,
        Ok(crate::pe_pages::build_seh()),
        false,
        true,
        "PE: out of frames (KiUser)",
    ) {
        Ok(()) => {},
        Err(e) => { return Err(e); },
    }
    match put_page(
        proc,
        fa,
        crate::apc::PE_KIUSERAPC_ADDR,
        Ok(crate::pe_pages::build_apc()),
        false,
        true,
        "PE: out of frames (KiUserApc)",
    ) {
        Ok(()) => {},
        Err(e) => { return Err(e); },
    }
    put_page(
        proc,
        fa,
        crate::pe_pages::PE_THREADSTART_ADDR,
        Ok(crate::pe_pages::build_thread_start(term)),
        false,
        true,
        "PE: out of frames (threadstart)",
    )
}

/// The TEB, PEB, parameters, and, where a module came from a file, the page of
/// loader entries.
#[verifier::opaque]
pub open spec fn process_pages(
    s: Space,
    free: Seq<u64>,
    base: u64,
    entry: u64,
    size: u64,
    stack_top: u64,
    mods: Seq<crate::pe_pages::FileMod>,
    tls_ptr: u64,
) -> Result<(Space, Seq<u64>), &'static str> {
    let r = then_page(
        Ok((s, free)),
        PagePlan {
            va: crate::pe_pages::PE_TEB_ADDR,
            bytes: Ok(crate::pe_pages::teb_page(stack_top, tls_ptr)),
            writable: true,
            executable: false,
            err: "PE: out of frames (TEB/PEB)",
        },
    );
    let r = then_page(
        r,
        PagePlan {
            va: crate::pe_pages::PE_PEB_ADDR,
            bytes: Ok(crate::pe_pages::peb_page(base)),
            writable: true,
            executable: false,
            err: "PE: out of frames (TEB/PEB)",
        },
    );
    let r = then_page(
        r,
        PagePlan {
            va: crate::pe_pages::PE_PARAMS_ADDR,
            bytes: Ok(
                crate::pe_pages::params_page(
                    base,
                    entry,
                    size,
                    crate::pe_pages::listed(mods.len()),
                ),
            ),
            writable: true,
            executable: false,
            err: "PE: out of frames (TEB/PEB)",
        },
    );
    if mods.len() == 0 {
        r
    } else {
        then_page(
            r,
            PagePlan {
                va: crate::pe_pages::PE_LDRDATA_ADDR,
                bytes: match crate::pe_pages::ldr_page(mods) {
                    Some(b) => Ok(b),
                    None => Err("PE: loader names overflow their page"),
                },
                writable: true,
                executable: false,
                err: "PE: out of frames (TEB/PEB)",
            },
        )
    }
}

/// Map the TEB and PEB, the process parameters and the loader lists.
pub fn map_teb_peb(
    proc: &mut Process,
    fa: &mut FrameAllocator,
    image_base: u64,
    entry: u64,
    size_of_image: u64,
    stack_top: u64,
    mods: &[crate::pe_pages::LdrFileMod],
    tls_ptr: u64,
) -> (r: Result<(), &'static str>)
    requires
        old(proc).wf(),
    ensures
        final(proc).wf(),
        final(proc).pml4() == old(proc).pml4(),
        match process_pages(
            old(proc)@,
            old(fa)@,
            image_base,
            entry,
            size_of_image,
            stack_top,
            crate::pe_pages::file_mods(mods@),
            tls_ptr,
        ) {
            Ok((s, free)) => r is Ok && final(proc)@ == s && final(fa)@ == free,
            Err(e) => r == Err::<(), &'static str>(e),
        },
{
    reveal(process_pages);
    let len: usize = mods.len();
    let n: usize = if len <= 12 { len } else { 12 };
    match put_page(
        proc,
        fa,
        crate::pe_pages::PE_TEB_ADDR,
        Ok(crate::pe_pages::build_teb(stack_top, tls_ptr)),
        true,
        false,
        "PE: out of frames (TEB/PEB)",
    ) {
        Ok(()) => {},
        Err(e) => { return Err(e); },
    }
    match put_page(
        proc,
        fa,
        crate::pe_pages::PE_PEB_ADDR,
        Ok(crate::pe_pages::build_peb(image_base)),
        true,
        false,
        "PE: out of frames (TEB/PEB)",
    ) {
        Ok(()) => {},
        Err(e) => { return Err(e); },
    }
    match put_page(
        proc,
        fa,
        crate::pe_pages::PE_PARAMS_ADDR,
        Ok(crate::pe_pages::build_params(image_base, entry, size_of_image, n)),
        true,
        false,
        "PE: out of frames (TEB/PEB)",
    ) {
        Ok(()) => {},
        Err(e) => { return Err(e); },
    }
    if len == 0 {
        return Ok(());
    }
    let page: Result<Vec<u8>, &'static str> = match crate::pe_pages::build_ldr(mods) {
        Some(b) => Ok(b),
        None => Err("PE: loader names overflow their page"),
    };
    put_page(
        proc,
        fa,
        crate::pe_pages::PE_LDRDATA_ADDR,
        page,
        true,
        false,
        "PE: out of frames (TEB/PEB)",
    )
}

/// Of the first `n` modules, those from files.
pub open spec fn from_files(mods: Seq<Mod>, n: int) -> Seq<crate::pe_pages::FileMod>
    decreases n,
{
    if n <= 0 {
        Seq::empty()
    } else {
        let m = mods[n - 1];
        let r = from_files(mods, n - 1);
        if m.is_file {
            r.push(
                crate::pe_pages::FileMod {
                    base: m.base,
                    entry: m.entry,
                    size: m.size,
                    name: m.name,
                },
            )
        } else {
            r
        }
    }
}

/// `acc` and the entry points of the first `n` modules, the last one first: a
/// module was registered before those it imports.
pub open spec fn with_attach(
    acc: Seq<(u64, u64)>,
    mods: Seq<crate::pe_pages::FileMod>,
    n: int,
) -> Seq<(u64, u64)>
    decreases n,
{
    if n <= 0 {
        acc
    } else {
        with_attach(
            if mods[n - 1].entry != 0 {
                acc.push((mods[n - 1].base, mods[n - 1].entry))
            } else {
                acc
            },
            mods,
            n - 1,
        )
    }
}

impl Loader {
    fn collect_files(&self) -> (r: Vec<crate::pe_pages::LdrFileMod>)
        ensures
            crate::pe_pages::file_mods(r@) == from_files(
                mods_of(self.mods@),
                self.mods@.len() as int,
            ),
    {
        let mut r: Vec<crate::pe_pages::LdrFileMod> = Vec::new();
        let n: usize = self.mods.len();
        let mut i: usize = 0;
        assert(crate::pe_pages::file_mods(r@) =~= Seq::empty());
        while i < n
            invariant
                i <= n,
                n == self.mods@.len(),
                crate::pe_pages::file_mods(r@) == from_files(mods_of(self.mods@), i as int),
            decreases n - i,
        {
            let m = &self.mods[i];
            assert(mods_of(self.mods@)[i as int] == m@);
            if m.is_file {
                let f = crate::pe_pages::LdrFileMod {
                    base: m.base,
                    entry: m.entry,
                    size: m.size,
                    name: crate::text::copy_chars(m.name.as_slice()),
                };
                assert(crate::pe_pages::file_mods(r@.push(f)) =~= crate::pe_pages::file_mods(
                    r@,
                ).push(f@));
                r.push(f);
            }
            i = i + 1;
        }
        r
    }

    fn init_list(&self, mods: &Vec<crate::pe_pages::LdrFileMod>) -> (r: Vec<(u64, u64)>)
        ensures
            r@ == with_attach(
                self.tls_cbs@,
                crate::pe_pages::file_mods(mods@),
                mods@.len() as int,
            ),
    {
        let mut r: Vec<(u64, u64)> = Vec::new();
        let mut i: usize = 0;
        while i < self.tls_cbs.len()
            invariant
                i <= self.tls_cbs@.len(),
                r@ =~= self.tls_cbs@.take(i as int),
            decreases self.tls_cbs@.len() - i,
        {
            r.push(self.tls_cbs[i]);
            i = i + 1;
        }
        assert(r@ =~= self.tls_cbs@);
        let mut n: usize = mods.len();
        while n > 0
            invariant
                n <= mods@.len(),
                with_attach(
                    self.tls_cbs@,
                    crate::pe_pages::file_mods(mods@),
                    mods@.len() as int,
                ) == with_attach(r@, crate::pe_pages::file_mods(mods@), n as int),
            decreases n,
        {
            assert(crate::pe_pages::file_mods(mods@)[n - 1] == mods@[n - 1]@);
            if mods[n - 1].entry != 0 {
                r.push((mods[n - 1].base, mods[n - 1].entry));
            }
            n = n - 1;
        }
        r
    }
}

/// The bootstrap page mapped, where any initialiser is to run, and where the
/// first thread starts.
pub open spec fn started(
    s: Space,
    free: Seq<u64>,
    init: Seq<(u64, u64)>,
    n_tls: nat,
    entry: u64,
) -> Result<(Space, Seq<u64>, u64), &'static str> {
    if init.len() == 0 {
        Ok((s, free, entry))
    } else {
        match then_page(
            Ok((s, free)),
            PagePlan {
                va: crate::pe_pages::PE_BOOTSTRAP_ADDR,
                bytes: if init.len() > 63 {
                    Err("PE: too many init routines for the bootstrap page")
                } else {
                    Ok(crate::pe_pages::bootstrap_page(init, n_tls as u32, entry))
                },
                writable: false,
                executable: true,
                err: "PE: out of frames (bootstrap)",
            },
        ) {
            Err(e) => Err(e),
            Ok((s2, free2)) => Ok((s2, free2, crate::pe_pages::PE_BOOTSTRAP_ADDR)),
        }
    }
}

/// The static-TLS page mapped, where any module has TLS.
pub open spec fn with_tls(s: Space, t: Tls) -> Space {
    if t.frame == 0 {
        s
    } else {
        Space {
            mem: process::with_page(
                s.mem,
                process::page_of(crate::pe_pages::PE_TLS_ADDR as int),
                t.page,
            ),
            pages: s.pages.insert(
                process::page_of(crate::pe_pages::PE_TLS_ADDR as int),
                process::PageInfo { frame: t.frame, writable: true, executable: false },
            ),
            ..s
        }
    }
}

/// What is left once the program's image is mapped.
pub open spec fn laid_out(
    st: Ld,
    sg: pe::Staged,
    stack_top: u64,
    exports: Seq<&str>,
    flag: u16,
    data: Seq<u16>,
    term: u16,
) -> Result<(PeImage, Space, Seq<u64>), &'static str> {
    match system_pages(st.space, st.free, exports, flag, data, term) {
        Err(e) => Err(e),
        Ok((s1, f1)) => {
            let s2 = with_tls(s1, st.tls);
            let mods = from_files(st.mods, st.mods.len() as int);
            match process_pages(
                s2,
                f1,
                sg.load_base,
                sg.entry,
                sg.size_of_image,
                stack_top,
                mods,
                if st.tls.frame != 0 {
                    crate::pe_pages::PE_TLS_ADDR
                } else {
                    0
                },
            ) {
                Err(e) => Err(e),
                Ok((s3, f3)) => match started(
                    s3,
                    f3,
                    with_attach(st.cbs, mods, mods.len() as int),
                    st.cbs.len(),
                    sg.entry,
                ) {
                    Err(e) => Err(e),
                    Ok((s4, f4, entry)) => Ok(
                        (
                            PeImage {
                                entry,
                                teb: crate::pe_pages::PE_TEB_ADDR,
                                base: sg.load_base,
                                size: sg.size_of_image,
                            },
                            s4,
                            f4,
                        ),
                    ),
                },
            }
        },
    }
}

/// The program in `file` loaded into an address space.
pub open spec fn program_loaded(
    disk: Seq<u8>,
    file: Seq<u8>,
    space: Space,
    free: Seq<u64>,
    stack_top: u64,
    exports: Seq<&str>,
    flag: u16,
    data: Seq<u16>,
    term: u16,
) -> Result<(PeImage, Space, Seq<u64>), &'static str> {
    let st = fresh(exports, space, free);
    match pe::staged(file, None) {
        Err(e) => Err(e),
        Ok(sg) => {
            let bound = if sg.import.1 != 0 {
                imports_bound(disk, st, 0, sg.img, sg.size_of_image as int, sg.import.0 as int)
            } else {
                Ok((st, sg.img))
            };
            match bound {
                Err(e) => Err(e),
                Ok((st2, img)) => match finished(st2, sg, img) {
                    Err(e) => Err(e),
                    Ok(st3) => laid_out(st3, sg, stack_top, exports, flag, data, term),
                },
            }
        },
    }
}

fn lay_out(
    ldr: Loader,
    proc: &mut Process,
    fa: &mut FrameAllocator,
    staged: &crate::pe::StagedImage,
    stack_top: u64,
    crt: &CrtTable,
    term: u16,
) -> (r: Result<PeImage, &'static str>)
    requires
        ldr.wf(),
        old(proc).wf(),
    ensures
        final(proc).wf(),
        final(proc).pml4() == old(proc).pml4(),
        match laid_out(
            ldr.with(*old(proc), *old(fa)),
            staged@,
            stack_top,
            crt.exports@,
            crt.flag,
            crt.data@,
            term,
        ) {
            Ok((img, s, free)) => {
                &&& r == Ok::<PeImage, &'static str>(img)
                &&& final(proc)@ == s
                &&& final(fa)@ == free
            },
            Err(e) => r == Err::<PeImage, &'static str>(e),
        },
{
    match map_system_pages(proc, fa, crt, term) {
        Ok(()) => {},
        Err(e) => { return Err(e); },
    }
    let files = ldr.collect_files();
    let init = ldr.init_list(&files);
    let n_tls: usize = ldr.tls_cbs.len();
    let frame: u64 = ldr.tls.frame;
    let mut tls_ptr: u64 = 0;
    if frame != 0 {
        proc.map(crate::pe_pages::PE_TLS_ADDR, frame, ldr.tls.page, true, false);
        tls_ptr = crate::pe_pages::PE_TLS_ADDR;
    }
    match map_teb_peb(
        proc,
        fa,
        staged.load_base,
        staged.entry,
        staged.size_of_image,
        stack_top,
        files.as_slice(),
        tls_ptr,
    ) {
        Ok(()) => {},
        Err(e) => { return Err(e); },
    }
    let mut entry: u64 = staged.entry;
    if init.len() > 0 {
        let page = crate::pe_pages::build_bootstrap(init.as_slice(), n_tls as u32, staged.entry);
        match put_page(
            proc,
            fa,
            crate::pe_pages::PE_BOOTSTRAP_ADDR,
            page,
            false,
            true,
            "PE: out of frames (bootstrap)",
        ) {
            Ok(()) => {},
            Err(e) => { return Err(e); },
        }
        entry = crate::pe_pages::PE_BOOTSTRAP_ADDR;
    }
    Ok(
        PeImage {
            entry,
            teb: crate::pe_pages::PE_TEB_ADDR,
            base: staged.load_base,
            size: staged.size_of_image,
        },
    )
}

/// Load a Win64 program: stage it, resolve its imports, map everything, and
/// lay out the process.
pub fn load(
    proc: &mut Process,
    fa: &mut FrameAllocator,
    disk: &[u8],
    file: &[u8],
    stack_top: u64,
    crt: &CrtTable,
    term: u16,
) -> (r: Result<PeImage, &'static str>)
    requires
        old(proc).wf(),
        12 < crt.exports@.len() <= 0xFFFF,
    ensures
        final(proc).wf(),
        final(proc).pml4() == old(proc).pml4(),
        match program_loaded(
            disk@,
            file@,
            old(proc)@,
            old(fa)@,
            stack_top,
            crt.exports@,
            crt.flag,
            crt.data@,
            term,
        ) {
            Ok((img, s, free)) => {
                &&& r == Ok::<PeImage, &'static str>(img)
                &&& final(proc)@ == s
                &&& final(fa)@ == free
            },
            Err(e) => r == Err::<PeImage, &'static str>(e),
        },
{
    let mut ldr = Loader::new(crt);
    assert(ldr.with(*proc, *fa) == fresh(crt.exports@, proc@, fa@));
    let mut staged = match crate::pe::stage_image(file, None) {
        Ok(v) => v,
        Err(e) => { return Err(e); },
    };
    let ghost sg = staged@;
    if staged.import_size != 0 {
        match ldr.bind_imports(
            proc,
            fa,
            disk,
            0,
            &mut staged.img,
            staged.import_rva,
            staged.size_of_image,
        ) {
            Ok(()) => {},
            Err(e) => { return Err(e); },
        }
    }
    match ldr.finish(proc, fa, &mut staged, Ghost(sg)) {
        Ok(()) => {},
        Err(e) => { return Err(e); },
    }
    lay_out(ldr, proc, fa, &staged, stack_top, crt, term)
}

// --- a worker thread's pages ---

/// A page of a worker thread's stack; the last one ends in the two words the
/// thread starts from.
pub open spec fn thread_stack_page(start: u64, arg: u64, last: bool) -> Seq<u8> {
    let b = bytes::zeros(4096);
    if last {
        crate::apc::w64(crate::apc::w64(b, 4080, start), 4088, arg)
    } else {
        b
    }
}

/// A worker thread's environment block.
pub open spec fn worker_teb() -> Seq<u8> {
    let b = bytes::zeros(4096);
    let b = crate::apc::w64(
        b,
        0x08,
        (crate::pe_pages::PE_THREAD_STACK_ADDR + crate::pe_pages::PE_THREAD_STACK_BYTES) as u64,
    );
    let b = crate::apc::w64(b, 0x10, crate::pe_pages::PE_THREAD_STACK_ADDR);
    let b = crate::apc::w64(b, 0x30, crate::pe_pages::PE_TEB2_ADDR);
    crate::apc::w64(b, 0x60, crate::pe_pages::PE_PEB_ADDR)
}

/// A writable page with these bytes on a fresh frame.
pub open spec fn with_fresh(s: Space, free: Seq<u64>, va: u64, b: Seq<u8>) -> (Space, Seq<u64>) {
    (
        Space {
            mem: process::with_page(s.mem, process::page_of(va as int), b),
            pages: s.pages.insert(
                process::page_of(va as int),
                process::PageInfo {
                    frame: mm::down(free.last() as int, 4096) as u64,
                    writable: true,
                    executable: false,
                },
            ),
            ..s
        },
        free.drop_last(),
    )
}

/// A worker's stack mapped from page `i` on: the space, the frames left, and
/// whether there were enough of them.
pub open spec fn thread_stack(s: Space, free: Seq<u64>, start: u64, arg: u64, i: int) -> (
    Space,
    Seq<u64>,
    bool,
)
    decreases 8 - i,
{
    if i >= 8 {
        (s, free, true)
    } else if free.len() == 0 {
        (s, free, false)
    } else {
        let (s2, f2) = with_fresh(
            s,
            free,
            (crate::pe_pages::PE_THREAD_STACK_ADDR + i * 4096) as u64,
            thread_stack_page(start, arg, i == 7),
        );
        thread_stack(s2, f2, start, arg, i + 1)
    }
}

/// A worker's stack and environment block mapped: the space, the frames left,
/// and the stack pointer to start with. What was mapped before the frames ran
/// out stays.
pub open spec fn thread_pages(s: Space, free: Seq<u64>, start: u64, arg: u64) -> (
    Space,
    Seq<u64>,
    Result<u64, &'static str>,
) {
    let (s2, f2, ok) = thread_stack(s, free, start, arg, 0);
    if !ok {
        (s2, f2, Err("PE: out of frames (thread stack)"))
    } else if f2.len() == 0 {
        (s2, f2, Err("PE: out of frames (thread TEB)"))
    } else {
        let (s3, f3) = with_fresh(s2, f2, crate::pe_pages::PE_TEB2_ADDR, worker_teb());
        (
            s3,
            f3,
            Ok(
                (crate::pe_pages::PE_THREAD_STACK_ADDR + crate::pe_pages::PE_THREAD_STACK_BYTES
                    - 16) as u64,
            ),
        )
    }
}

/// Map a worker thread's stack and environment block.
pub fn map_thread(proc: &mut Process, fa: &mut FrameAllocator, start: u64, arg: u64) -> (r: Result<
    u64,
    &'static str,
>)
    requires
        old(proc).wf(),
    ensures
        final(proc).wf(),
        final(proc).pml4() == old(proc).pml4(),
        (final(proc)@, final(fa)@, r) == thread_pages(old(proc)@, old(fa)@, start, arg),
{
    let ghost want = thread_stack(proc@, fa@, start, arg, 0);
    let mut i: u64 = 0;
    while i < 8
        invariant
            i <= 8,
            proc.wf(),
            proc.pml4() == old(proc).pml4(),
            want == thread_stack(old(proc)@, old(fa)@, start, arg, 0),
            want == thread_stack(proc@, fa@, start, arg, i as int),
        decreases 8 - i,
    {
        if fa.free_frames() == 0 {
            return Err("PE: out of frames (thread stack)");
        }
        let mut b = crate::bytes::zeroed(4096);
        if i == 7 {
            put64(&mut b, 4080, start);
            put64(&mut b, 4088, arg);
        }
        let _ok = proc.map_fresh(
            fa,
            crate::pe_pages::PE_THREAD_STACK_ADDR + i * 4096,
            b,
            true,
            false,
        );
        i = i + 1;
    }
    if fa.free_frames() == 0 {
        return Err("PE: out of frames (thread TEB)");
    }
    let mut b = crate::bytes::zeroed(4096);
    put64(
        &mut b,
        0x08,
        crate::pe_pages::PE_THREAD_STACK_ADDR + crate::pe_pages::PE_THREAD_STACK_BYTES,
    );
    put64(&mut b, 0x10, crate::pe_pages::PE_THREAD_STACK_ADDR);
    put64(&mut b, 0x30, crate::pe_pages::PE_TEB2_ADDR);
    put64(&mut b, 0x60, crate::pe_pages::PE_PEB_ADDR);
    let _ok = proc.map_fresh(fa, crate::pe_pages::PE_TEB2_ADDR, b, true, false);
    Ok(crate::pe_pages::PE_THREAD_STACK_ADDR + crate::pe_pages::PE_THREAD_STACK_BYTES - 16)
}

proof fn lemma_module_named(mods: Seq<Mod>, name: Seq<char>, k: int, j: int)
    requires
        0 <= k <= j < mods.len(),
        mods[j].name == name,
    ensures
        module_named(mods, name, k) matches Some(i) && k <= i <= j && mods[i].name == name,
    decreases j - k,
{
    if mods[k].name != name {
        lemma_module_named(mods, name, k + 1, j);
    }
}

proof fn lemma_seg_stems(
    s: Space,
    free: Seq<u64>,
    img: Seq<u8>,
    vaddr: int,
    off: int,
    size: int,
    executable: bool,
)
    ensures
        seg_mapped(s, free, img, vaddr, off, size, executable) matches Ok((t, left))
            ==> process::stems(s, free, t, left),
{
    reveal(seg_mapped);
    let span = if size < 1 {
        1
    } else {
        size
    };
    process::lemma_run_root(
        s,
        free,
        img,
        off,
        vaddr,
        size,
        executable,
        process::run_count(vaddr, span),
    );
}

proof fn lemma_segs_stem(
    s: Space,
    free: Seq<u64>,
    img: Seq<u8>,
    base: u64,
    segs: Seq<Seg>,
    k: int,
)
    ensures
        segs_mapped(s, free, img, base, segs, k) matches Ok((t, left)) ==> process::stems(
            s,
            free,
            t,
            left,
        ),
    decreases segs.len() - k,
{
    if k < segs.len() {
        let g = segs[k];
        lemma_seg_stems(s, free, img, base + g.rva, g.rva as int, g.mem_size as int, g.executable);
        match seg_mapped(
            s,
            free,
            img,
            base + g.rva,
            g.rva as int,
            g.mem_size as int,
            g.executable,
        ) {
            Ok((s2, free2)) => {
                lemma_segs_stem(s2, free2, img, base, segs, k + 1);
            },
            Err(_) => {},
        }
    }
}

/// The loader's state keeps the page-table root, and takes frames off the top.
spec fn ld_stems(a: Ld, b: Ld) -> bool {
    process::stems(a.space, a.free, b.space, b.free)
}

proof fn lemma_finished_stems(st: Ld, sg: pe::Staged, img: Seq<u8>)
    ensures
        finished(st, sg, img) matches Ok(b) ==> ld_stems(st, b),
{
    reveal(tls_added);
    let added = match sg.tls {
        None => Ok(TlsStep { tls: st.tls, free: st.free, img, cbs: st.cbs }),
        Some(m) => tls_added(st.tls, st.free, sg.load_base, img, m, st.cbs),
    };
    match added {
        Err(_) => {},
        Ok(a) => {
            lemma_seg_stems(st.space, a.free, a.img, sg.load_base as int, 0, sg.hdr_n as int, false);
            match seg_mapped(
                st.space,
                a.free,
                a.img,
                sg.load_base as int,
                0,
                sg.hdr_n as int,
                false,
            ) {
                Ok((s2, free2)) => {
                    lemma_segs_stem(s2, free2, a.img, sg.load_base, sg.segs, 0);
                },
                Err(_) => {},
            }
        },
    }
}

proof fn lemma_module_stems(disk: Seq<u8>, st: Ld, d: int, raw: Seq<char>)
    ensures
        module_resolved(disk, st, d, raw) matches Ok((b, _)) ==> ld_stems(st, b),
    decreases depth_left(d), 0int, 0int,
{
    let name = pe::dll_name(raw);
    if module_named(st.mods, name, 0) is None && d < 8 {
        match crate::ext2::opened(disk) {
            Err(_) => {},
            Ok(fs) => match crate::ext2::path_data(
                disk,
                fs,
                vstd::utf8::encode_utf8(library_path(name)),
            ) {
                Ok(Some(file)) => {
                    lemma_dll_stems(disk, st, d + 1, name, file);
                },
                _ => {},
            },
        }
    }
}

proof fn lemma_dll_stems(disk: Seq<u8>, st: Ld, d: int, name: Seq<char>, file: Seq<u8>)
    ensures
        dll_loaded(disk, st, d, name, file) matches Ok((b, _)) ==> ld_stems(st, b),
    decreases depth_left(d), 4int, 0int,
{
    if dll_loaded(disk, st, d, name, file) is Ok {
        let (base, end) = arena_slot(st.arena, pe::image_size(file)->Ok_0)->0;
        let sg = pe::staged(file, Some(base))->Ok_0;
        let t = export_table(sg.img, base, sg.export.0, sg.export.1)->Ok_0;
        let st1 = Ld { arena: end, mods: st.mods.push(registered(name, sg, t)), ..st };
        let (soi, idt) = (sg.size_of_image as int, sg.import.0 as int);
        lemma_imports_stem(disk, st1, d, sg.img, soi, idt);
        let bound = if sg.import.1 != 0 {
            imports_bound(disk, st1, d, sg.img, soi, idt)
        } else {
            Ok((st1, sg.img))
        };
        let (st2, img) = bound->Ok_0;
        lemma_finished_stems(st2, sg, img);
    }
}

proof fn lemma_imports_stem(disk: Seq<u8>, st: Ld, d: int, img: Seq<u8>, soi: int, idt: int)
    ensures
        imports_bound(disk, st, d, img, soi, idt) matches Ok((b, _)) ==> ld_stems(st, b),
    decreases depth_left(d), 3int, soi - idt,
{
    let ilt = bytes::le32(img, idt) as int;
    let name = bytes::le32(img, idt + 12) as int;
    let iat = bytes::le32(img, idt + 16) as int;
    if imports_bound(disk, st, d, img, soi, idt) is Ok && !(name == 0 && iat == 0) {
        let dll = pe::cstr(img, name)->Ok_0;
        lemma_module_stems(disk, st, d, dll);
        let (st2, mi) = module_resolved(disk, st, d, dll)->Ok_0;
        let names = if ilt != 0 {
            ilt
        } else {
            iat
        };
        lemma_thunks_stem(disk, st2, d, img, soi, mi, names, iat, 0);
        let (st3, img3) = thunks_bound(disk, st2, d, img, soi, mi, names, iat, 0)->Ok_0;
        lemma_imports_stem(disk, st3, d, img3, soi, idt + 20);
    }
}

proof fn lemma_thunks_stem(
    disk: Seq<u8>,
    st: Ld,
    d: int,
    img: Seq<u8>,
    soi: int,
    mi: int,
    names: int,
    iat: int,
    i: int,
)
    ensures
        thunks_bound(disk, st, d, img, soi, mi, names, iat, i) matches Ok((b, _)) ==> ld_stems(st, b),
    decreases depth_left(d), 2int, soi - names - 8 * i,
{
    let t = names + i * 8;
    let p = iat + i * 8;
    let thunk = bytes::le64(img, t);
    if thunks_bound(disk, st, d, img, soi, mi, names, iat, i) is Ok && thunk != 0 {
        let found = if thunk >= 0x8000_0000_0000_0000 {
            lemma_ordinal_stems(disk, st, d, mi, (thunk % 0x10000) as int, 0);
            ordinal_resolved(disk, st, d, mi, (thunk % 0x10000) as int, 0)
        } else {
            let f = pe::cstr(img, thunk % 0x8000_0000 + 2)->Ok_0;
            lemma_name_stems(disk, st, d, mi, f, 0);
            name_resolved(disk, st, d, mi, f, 0)
        };
        let (st2, a) = found->Ok_0;
        let img2 = bytes::splice(img, p, bytes::bytes64(a));
        lemma_thunks_stem(disk, st2, d, img2, soi, mi, names, iat, i + 1);
    }
}

proof fn lemma_name_stems(disk: Seq<u8>, st: Ld, d: int, mi: int, name: Seq<char>, f: int)
    ensures
        name_resolved(disk, st, d, mi, name, f) matches Ok((b, _)) ==> ld_stems(st, b),
    decreases depth_left(d), 1int, forwards_left(f) + 1,
{
    match slot_named(st.mods[mi].names, name, st.mods[mi].names.len() as int) {
        None => {},
        Some(i) => {
            lemma_slot_stems(disk, st, d, mi, i as int, f);
        },
    }
}

proof fn lemma_ordinal_stems(disk: Seq<u8>, st: Ld, d: int, mi: int, ord: int, f: int)
    ensures
        ordinal_resolved(disk, st, d, mi, ord, f) matches Ok((b, _)) ==> ld_stems(st, b),
    decreases depth_left(d), 1int, forwards_left(f) + 1,
{
    lemma_slot_stems(disk, st, d, mi, ord - st.mods[mi].ord_base, f);
}

proof fn lemma_slot_stems(disk: Seq<u8>, st: Ld, d: int, mi: int, i: int, f: int)
    ensures
        slot_resolved(disk, st, d, mi, i, f) matches Ok((b, _)) ==> ld_stems(st, b),
    decreases depth_left(d), 1int, forwards_left(f),
{
    if slot_resolved(disk, st, d, mi, i, f) is Ok {
        match st.mods[mi].eat[i] {
            Exp::Forward(s) => {
                let dot = text::last_at(s, '.', s.len() as int)->0;
                let fun = s.skip(dot + 1);
                lemma_module_stems(disk, st, d, s.take(dot));
                let (st2, tm) = module_resolved(disk, st, d, s.take(dot))->Ok_0;
                if fun.len() > 0 && fun[0] == '#' {
                    let o = text::u16_of(fun.skip(1))->0;
                    lemma_ordinal_stems(disk, st2, d, tm, o as int, f + 1);
                } else {
                    lemma_name_stems(disk, st2, d, tm, fun, f + 1);
                }
            },
            _ => {},
        }
    }
}

proof fn lemma_page_stems(s: Space, free: Seq<u64>, r: Result<(Space, Seq<u64>), &'static str>, p: PagePlan)
    requires
        r matches Ok((t, left)) ==> process::stems(s, free, t, left),
    ensures
        then_page(r, p) matches Ok((t, left)) ==> process::stems(s, free, t, left),
{
}

proof fn lemma_laid_out_stems(
    st: Ld,
    sg: pe::Staged,
    stack_top: u64,
    exports: Seq<&str>,
    flag: u16,
    data: Seq<u16>,
    term: u16,
)
    ensures
        laid_out(st, sg, stack_top, exports, flag, data, term) matches Ok((_, t, left))
            ==> process::stems(st.space, st.free, t, left),
{
    lemma_system_pages_stem(st.space, st.free, exports, flag, data, term);
    match system_pages(st.space, st.free, exports, flag, data, term) {
        Err(_) => {},
        Ok((s1, f1)) => {
            let s2 = with_tls(s1, st.tls);
            let mods = from_files(st.mods, st.mods.len() as int);
            let tls_ptr = if st.tls.frame != 0 {
                crate::pe_pages::PE_TLS_ADDR
            } else {
                0
            };
            lemma_process_pages_stem(
                s2,
                f1,
                sg.load_base,
                sg.entry,
                sg.size_of_image,
                stack_top,
                mods,
                tls_ptr,
            );
        },
    }
}

proof fn lemma_system_pages_stem(
    s: Space,
    free: Seq<u64>,
    exports: Seq<&str>,
    flag: u16,
    data: Seq<u16>,
    term: u16,
)
    ensures
        system_pages(s, free, exports, flag, data, term) matches Ok((t, left)) ==> process::stems(
            s,
            free,
            t,
            left,
        ),
{
    reveal(system_pages);
    assert forall|r: Result<(Space, Seq<u64>), &'static str>, p: PagePlan|
        (r matches Ok((t, left)) ==> process::stems(s, free, t, left)) implies (
    #[trigger] then_page(r, p) matches Ok((t, left)) ==> process::stems(s, free, t, left)) by {
        lemma_page_stems(s, free, r, p);
    }
}

proof fn lemma_process_pages_stem(
    s: Space,
    free: Seq<u64>,
    base: u64,
    entry: u64,
    size: u64,
    stack_top: u64,
    mods: Seq<crate::pe_pages::FileMod>,
    tls_ptr: u64,
)
    ensures
        process_pages(s, free, base, entry, size, stack_top, mods, tls_ptr) matches Ok((t, left))
            ==> process::stems(s, free, t, left),
{
    reveal(process_pages);
    assert forall|r: Result<(Space, Seq<u64>), &'static str>, p: PagePlan|
        (r matches Ok((t, left)) ==> process::stems(s, free, t, left)) implies (
    #[trigger] then_page(r, p) matches Ok((t, left)) ==> process::stems(s, free, t, left)) by {
        lemma_page_stems(s, free, r, p);
    }
}

/// Loading a program keeps the page-table root of the space it is loaded into,
/// and takes frames off the top of the free list.
pub proof fn law_loading_keeps_the_root(
    disk: Seq<u8>,
    file: Seq<u8>,
    space: Space,
    free: Seq<u64>,
    stack_top: u64,
    exports: Seq<&str>,
    flag: u16,
    data: Seq<u16>,
    term: u16,
)
    ensures
        program_loaded(disk, file, space, free, stack_top, exports, flag, data, term) matches Ok(
            (_, t, left),
        ) ==> process::stems(space, free, t, left),
{
    if program_loaded(disk, file, space, free, stack_top, exports, flag, data, term) is Ok {
        let st = fresh(exports, space, free);
        let sg = pe::staged(file, None)->Ok_0;
        let (soi, idt) = (sg.size_of_image as int, sg.import.0 as int);
        lemma_imports_stem(disk, st, 0, sg.img, soi, idt);
        let bound = if sg.import.1 != 0 {
            imports_bound(disk, st, 0, sg.img, soi, idt)
        } else {
            Ok((st, sg.img))
        };
        let (st2, img) = bound->Ok_0;
        lemma_finished_stems(st2, sg, img);
        let st3 = finished(st2, sg, img)->Ok_0;
        lemma_laid_out_stems(st3, sg, stack_top, exports, flag, data, term);
    }
}

/// Import cycles end: a library that is already known, also one whose own
/// imports are still being bound, is found at any depth, and nothing is loaded
/// again.
pub proof fn law_known_module_is_not_loaded_again(
    disk: Seq<u8>,
    st: Ld,
    d: int,
    raw: Seq<char>,
    j: int,
)
    requires
        0 <= j < st.mods.len(),
        st.mods[j].name == pe::dll_name(raw),
    ensures
        module_resolved(disk, st, d, raw) matches Ok((after, i)) && after == st && 0 <= i <= j
            && st.mods[i].name == pe::dll_name(raw),
{
    lemma_module_named(st.mods, pe::dll_name(raw), 0, j);
}

} // verus!
