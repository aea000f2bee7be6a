//! A minimal ELF64 loader: static `ET_EXEC` images, `PT_LOAD` segments only.
//! Fresh user pages are mapped at `p_vaddr`, `p_filesz` bytes come from the
//! image, the rest is zero.
use vstd::prelude::*;

use crate::bytes::{load16, load32, load64};
use crate::mm::FrameAllocator;
use crate::process::{Process, RunStatus};

verus! {

/// What a loaded program needs to start.
pub struct Image {
    pub entry: u64,
    /// Where a loaded segment holds the program headers (0 if none does), the
    /// size of one header and their number.
    pub phdr: u64,
    pub phent: u64,
    pub phnum: u64,
}

/// The fields of one program header.
pub struct Ph {
    pub kind: u32,
    pub flags: u32,
    pub offset: u64,
    pub vaddr: u64,
    pub filesz: u64,
    pub memsz: u64,
}

/// The program header at `o`.
pub open spec fn ph_at(img: Seq<u8>, o: int) -> Ph {
    Ph {
        kind: crate::bytes::le32(img, o),
        flags: crate::bytes::le32(img, o + 4),
        offset: crate::bytes::le64(img, o + 8),
        vaddr: crate::bytes::le64(img, o + 16),
        filesz: crate::bytes::le64(img, o + 32),
        memsz: crate::bytes::le64(img, o + 40),
    }
}

/// Why the ELF header is not one that can be loaded.
pub open spec fn header_error(img: Seq<u8>) -> Option<&'static str> {
    if img.len() < 64 || !(img[0] == 0x7F && img[1] == 0x45 && img[2] == 0x4C && img[3] == 0x46) {
        Some("not an ELF")
    } else if img[4] != 2 {
        Some("not ELF64")
    } else if img[5] != 1 {
        Some("not little-endian")
    } else if crate::bytes::le16(img, 16) != 2 {
        Some("not ET_EXEC")
    } else if crate::bytes::le16(img, 18) != 0x3E {
        Some("not x86-64")
    } else {
        None
    }
}

/// Where the `i`-th program header starts.
#[verifier::opaque]
pub open spec fn ph_off(img: Seq<u8>, i: int) -> int {
    crate::bytes::le64(img, 32) + i * crate::bytes::le16(img, 54)
}

/// The space and free list after one program header was obeyed.
pub open spec fn load_one(
    img: Seq<u8>,
    s: crate::process::Space,
    free: Seq<u64>,
    o: int,
) -> Result<(crate::process::Space, Seq<u64>), &'static str> {
    let p = ph_at(img, o);
    if o + 4 > img.len() {
        Err("truncated ELF")
    } else if p.kind != 1 {
        Ok((s, free))
    } else if o + 48 > img.len() {
        Err("truncated ELF")
    } else {
        load_segment(img, s, free, p)
    }
}

/// The space and free list after one `PT_LOAD` segment was mapped.
#[verifier::opaque]
pub open spec fn load_segment(
    img: Seq<u8>,
    s: crate::process::Space,
    free: Seq<u64>,
    p: Ph,
) -> Result<(crate::process::Space, Seq<u64>), &'static str> {
    let n = crate::process::run_count(p.vaddr as int, p.memsz as int);
    let ok = |k: int|
        crate::process::run_ok(
            img.len() as int,
            p.offset as int,
            p.vaddr as int,
            p.filesz as int,
            k,
        );
    if p.vaddr + p.memsz + 4096 > u64::MAX {
        Err("ELF segment past the address space")
    } else if n <= free.len() && forall|k: int| 0 <= k < n ==> #[trigger] ok(k) {
        Ok(
            (
                crate::process::with_run(
                    s,
                    free,
                    img,
                    p.offset as int,
                    p.vaddr as int,
                    p.filesz as int,
                    p.flags % 2 != 0,
                    n,
                ),
                free.take(free.len() - n),
            ),
        )
    } else if n > free.len() && forall|k: int| 0 <= k < free.len() ==> #[trigger] ok(k) {
        Err("no frame for ELF segment")
    } else {
        Err("truncated ELF")
    }
}

/// The space and free list after the first `n` program headers were obeyed.
pub open spec fn load_all(
    img: Seq<u8>,
    s: crate::process::Space,
    free: Seq<u64>,
    n: nat,
) -> Result<(crate::process::Space, Seq<u64>), &'static str>
    decreases n,
{
    if n == 0 {
        Ok((s, free))
    } else {
        match load_all(img, s, free, (n - 1) as nat) {
            Err(e) => Err(e),
            Ok((t, f)) => load_one(img, t, f, ph_off(img, n - 1)),
        }
    }
}

/// Loading maps pages, and leaves the page-table root alone.
pub proof fn lemma_load_stems(img: Seq<u8>, s: crate::process::Space, free: Seq<u64>, n: nat)
    ensures
        load_all(img, s, free, n) matches Ok((t, left)) ==> crate::process::stems(s, free, t, left),
    decreases n,
{
    if n > 0 {
        lemma_load_stems(img, s, free, (n - 1) as nat);
        match load_all(img, s, free, (n - 1) as nat) {
            Ok((t, f)) => {
                let p = ph_at(img, ph_off(img, n - 1));
                reveal(load_segment);
                crate::process::lemma_run_root(
                    t,
                    f,
                    img,
                    p.offset as int,
                    p.vaddr as int,
                    p.filesz as int,
                    p.flags % 2 != 0,
                    crate::process::run_count(p.vaddr as int, p.memsz as int),
                );
            },
            Err(_) => {},
        }
    }
}

/// Where the first of the first `n` headers that loads the header table puts it.
pub open spec fn phdr_va(img: Seq<u8>, n: nat) -> u64
    decreases n,
{
    let table = crate::bytes::le64(img, 32);
    if n == 0 {
        0
    } else {
        let before = phdr_va(img, (n - 1) as nat);
        let p = ph_at(img, ph_off(img, n - 1));
        if before != 0 {
            before
        } else if p.kind == 1 && p.offset <= table < p.offset + p.filesz && p.vaddr + (table
            - p.offset) <= u64::MAX {
            (p.vaddr + (table - p.offset)) as u64
        } else {
            0
        }
    }
}

/// Load `image` into `proc`. On an error part of it may have been mapped.
pub fn load(proc: &mut Process, fa: &mut FrameAllocator, image: &[u8]) -> (r: Result<
    Image,
    &'static str,
>)
    requires
        old(proc).wf(),
    ensures
        final(proc).wf(),
        final(proc).pml4() == old(proc).pml4(),
        crate::process::exclusive(old(proc)@, old(fa)@) ==> crate::process::exclusive(
            final(proc)@,
            final(fa)@,
        ),
        ({
            let n = crate::bytes::le16(image@, 56) as nat;
            match header_error(image@) {
                Some(e) => r == Err::<Image, &'static str>(e) && final(proc)@ == old(proc)@
                    && final(fa)@ == old(fa)@,
                None => match load_all(image@, old(proc)@, old(fa)@, n) {
                    Err(e) => r == Err::<Image, &'static str>(e),
                    Ok((s, f)) => {
                        &&& final(proc)@ == s
                        &&& final(fa)@ == f
                        &&& r == Ok::<Image, &'static str>(
                            Image {
                                entry: crate::bytes::le64(image@, 24),
                                phdr: phdr_va(image@, n),
                                phent: crate::bytes::le16(image@, 54) as u64,
                                phnum: n as u64,
                            },
                        )
                    },
                },
            }
        }),
{
    let len: usize = image.len();
    if len < 64 || !(image[0] == 0x7F && image[1] == 0x45 && image[2] == 0x4C && image[3] == 0x46) {
        return Err("not an ELF");
    }
    if image[4] != 2 {
        return Err("not ELF64");
    }
    if image[5] != 1 {
        return Err("not little-endian");
    }
    if load16(image, 16) != 2 {
        return Err("not ET_EXEC");
    }
    if load16(image, 18) != 0x3E {
        return Err("not x86-64");
    }
    let entry: u64 = load64(image, 24);
    let table: u64 = load64(image, 32);
    let ent: u16 = load16(image, 54);
    let num: u16 = load16(image, 56);
    let mut phdr: u64 = 0;
    let mut i: u16 = 0;
    while i < num
        invariant
            i <= num,
            len == image@.len(),
            len >= 64,
            table == crate::bytes::le64(image@, 32),
            ent == crate::bytes::le16(image@, 54),
            num == crate::bytes::le16(image@, 56),
            header_error(image@) is None,
            proc.wf(),
            proc.pml4() == old(proc).pml4(),
            crate::process::exclusive(old(proc)@, old(fa)@) ==> crate::process::exclusive(
                proc@,
                fa@,
            ),
            load_all(image@, old(proc)@, old(fa)@, i as nat) == Ok::<
                (crate::process::Space, Seq<u64>),
                &'static str,
            >((proc@, fa@)),
            phdr == phdr_va(image@, i as nat),
        decreases num - i,
    {
        assert(i as int * ent as int <= 65535 * 65535) by (nonlinear_arith)
            requires
                i <= 65535,
                ent <= 65535,
        ;
        let step: u64 = i as u64 * ent as u64;
        let ghost o = ph_off(image@, i as int);
        reveal(ph_off);
        assert(load_all(image@, old(proc)@, old(fa)@, (i + 1) as nat) == load_one(
            image@,
            proc@,
            fa@,
            o,
        ));
        proof {
            lemma_load_stuck(image@, old(proc)@, old(fa)@, (i + 1) as nat, num as nat);
        }
        if table > len as u64 || step > len as u64 - table {
            return Err("truncated ELF");
        }
        let at: usize = (table + step) as usize;
        assert(at == o);
        match obey(proc, fa, image, at) {
            Err(e) => { return Err(e); },
            Ok(None) => (),
            Ok(Some(p)) => {
                if phdr == 0 && p.offset <= table && table - p.offset < p.filesz && table
                    - p.offset <= u64::MAX - p.vaddr {
                    phdr = p.vaddr + (table - p.offset);
                }
            },
        }
        i = i + 1;
    }
    Ok(Image { entry, phdr, phent: ent as u64, phnum: num as u64 })
}

/// Obey the program header at `at`; a `PT_LOAD` header is handed back.
fn obey(proc: &mut Process, fa: &mut FrameAllocator, image: &[u8], at: usize) -> (r: Result<
    Option<Ph>,
    &'static str,
>)
    requires
        old(proc).wf(),
        at <= image@.len(),
    ensures
        final(proc).wf(),
        final(proc).pml4() == old(proc).pml4(),
        crate::process::exclusive(old(proc)@, old(fa)@) ==> crate::process::exclusive(
            final(proc)@,
            final(fa)@,
        ),
        match load_one(image@, old(proc)@, old(fa)@, at as int) {
            Ok((s, f)) => {
                &&& final(proc)@ == s
                &&& final(fa)@ == f
                &&& r == Ok::<Option<Ph>, &'static str>(
                    if ph_at(image@, at as int).kind == 1 {
                        Some(ph_at(image@, at as int))
                    } else {
                        None
                    },
                )
            },
            Err(e) => r == Err::<Option<Ph>, &'static str>(e),
        },
{
    let len: usize = image.len();
    if len - at < 4 {
        return Err("truncated ELF");
    }
    let kind: u32 = load32(image, at);
    if kind != 1 {
        return Ok(None);
    }
    if len - at < 48 {
        return Err("truncated ELF");
    }
    let p = Ph {
        kind,
        flags: load32(image, at + 4),
        offset: load64(image, at + 8),
        vaddr: load64(image, at + 16),
        filesz: load64(image, at + 32),
        memsz: load64(image, at + 40),
    };
    match map_segment(proc, fa, image, &p) {
        Ok(()) => Ok(Some(p)),
        Err(e) => Err(e),
    }
}

/// Once a header fails, the whole load has failed with the same error.
proof fn lemma_load_stuck(
    img: Seq<u8>,
    s: crate::process::Space,
    free: Seq<u64>,
    i: nat,
    n: nat,
)
    requires
        i <= n,
    ensures
        load_all(img, s, free, i) matches Err(e) ==> load_all(img, s, free, n) == Err::<
            (crate::process::Space, Seq<u64>),
            &'static str,
        >(e),
    decreases n - i,
{
    if i < n {
        lemma_load_stuck(img, s, free, i + 1, n);
    }
}

/// Map one `PT_LOAD` segment, writable, executable if its flags say so.
fn map_segment(proc: &mut Process, fa: &mut FrameAllocator, image: &[u8], p: &Ph) -> (r: Result<
    (),
    &'static str,
>)
    requires
        old(proc).wf(),
    ensures
        final(proc).wf(),
        final(proc).pml4() == old(proc).pml4(),
        crate::process::exclusive(old(proc)@, old(fa)@) ==> crate::process::exclusive(
            final(proc)@,
            final(fa)@,
        ),
        match load_segment(image@, old(proc)@, old(fa)@, *p) {
            Ok((s, f)) => r is Ok && final(proc)@ == s && final(fa)@ == f,
            Err(e) => r == Err::<(), &'static str>(e),
        },
{
    reveal(load_segment);
    if p.memsz > u64::MAX - p.vaddr || p.vaddr + p.memsz > u64::MAX - 4096 {
        return Err("ELF segment past the address space");
    }
    match proc.map_run(fa, image, p.offset, p.vaddr, p.filesz, p.memsz, p.flags % 2 != 0) {
        RunStatus::Mapped => Ok(()),
        RunStatus::NoFrame => Err("no frame for ELF segment"),
        RunStatus::NoData => Err("truncated ELF"),
    }
}

} // verus!
