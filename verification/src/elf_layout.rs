//! What a loaded ELF image looks like in memory, said of the file's own bytes.
use vstd::prelude::*;

use crate::bytes;
use crate::elf;
use crate::process;
use crate::process::Space;

verus! {

/// Where program header `k` lies in the file: the table begins at the offset
/// in the ELF header, and its entries have the size given there.
pub open spec fn header_at(img: Seq<u8>, k: int) -> int {
    bytes::le64(img, 32) + k * bytes::le16(img, 54)
}

/// Header `k` asks for memory (`PT_LOAD`).
pub open spec fn loads(img: Seq<u8>, k: int) -> bool {
    bytes::le32(img, header_at(img, k)) == 1
}

/// `p_offset`, `p_vaddr`, `p_filesz` and `p_memsz` of header `k`.
pub open spec fn p_offset(img: Seq<u8>, k: int) -> int {
    bytes::le64(img, header_at(img, k) + 8) as int
}

pub open spec fn p_vaddr(img: Seq<u8>, k: int) -> int {
    bytes::le64(img, header_at(img, k) + 16) as int
}

pub open spec fn p_filesz(img: Seq<u8>, k: int) -> int {
    bytes::le64(img, header_at(img, k) + 32) as int
}

pub open spec fn p_memsz(img: Seq<u8>, k: int) -> int {
    bytes::le64(img, header_at(img, k) + 40) as int
}

/// The address `a` lies in a page that header `k` maps.
#[verifier::opaque]
pub open spec fn maps(img: Seq<u8>, k: int, a: int) -> bool {
    loads(img, k) && p_vaddr(img, k) / 4096 * 4096 <= a < (p_vaddr(img, k) + p_memsz(img, k) + 4095)
        / 4096 * 4096
}

/// The bytes and rights of the first `n` pages of a run, and what stays around
/// them.
pub proof fn lemma_run(
    s: Space,
    free: Seq<u64>,
    image: Seq<u8>,
    off: int,
    vaddr: int,
    filesz: int,
    executable: bool,
    n: nat,
)
    ensures
        ({
            let t = process::with_run(s, free, image, off, vaddr, filesz, executable, n);
            let low = vaddr - vaddr % 4096;
            &&& forall|a: int|
                low <= a < low + n * 4096 ==> #[trigger] t.mem.contains_key(a) && t.mem[a] == (if vaddr
                    <= a < vaddr + filesz {
                    image[off + (a - vaddr)]
                } else {
                    0
                })
            &&& forall|a: int|
                !(low <= a < low + n * 4096) ==> (#[trigger] t.mem.contains_key(a)
                    == s.mem.contains_key(a)) && (s.mem.contains_key(a) ==> t.mem[a] == s.mem[a])
            &&& forall|a: int|
                low <= a < low + n * 4096 && a % 4096 == 0 ==> #[trigger] t.pages.contains_key(a)
                    && t.pages[a].writable && t.pages[a].executable == executable
            &&& forall|a: int|
                !(low <= a < low + n * 4096) ==> (#[trigger] t.pages.contains_key(a)
                    == s.pages.contains_key(a)) && (s.pages.contains_key(a) ==> t.pages[a]
                    == s.pages[a])
            &&& t.next_va == s.next_va && t.brk == s.brk
        }),
    decreases n,
{
    if n > 0 {
        lemma_run(s, free, image, off, vaddr, filesz, executable, (n - 1) as nat);
    }
}

/// The same of a header that was read.
spec fn covers(p: elf::Ph, a: int) -> bool {
    p.kind == 1 && p.vaddr / 4096 * 4096 <= a < (p.vaddr + p.memsz + 4095) / 4096 * 4096
}

spec fn fill(img: Seq<u8>, p: elf::Ph, a: int) -> u8 {
    if p.vaddr <= a < p.vaddr + p.filesz {
        img[p.offset + (a - p.vaddr)]
    } else {
        0
    }
}

/// What a space is like once the header `p` was obeyed in `s`.
spec fn obeyed(img: Seq<u8>, s: Space, t: Space, p: elf::Ph) -> bool {
    &&& forall|a: int|
        covers(p, a) ==> #[trigger] t.mem.contains_key(a) && t.mem[a] == fill(img, p, a)
    &&& forall|a: int|
        !covers(p, a) ==> (#[trigger] t.mem.contains_key(a) == s.mem.contains_key(a)) && (
        s.mem.contains_key(a) ==> t.mem[a] == s.mem[a])
    &&& forall|a: int|
        covers(p, a) && a % 4096 == 0 ==> #[trigger] t.pages.contains_key(a) && t.pages[a].writable
            && t.pages[a].executable == (p.flags % 2 == 1)
    &&& forall|a: int|
        !covers(p, a) ==> (#[trigger] t.pages.contains_key(a) == s.pages.contains_key(a)) && (
        s.pages.contains_key(a) ==> t.pages[a] == s.pages[a])
}

/// Mapping a segment fills its pages and leaves every other address alone.
proof fn lemma_segment(img: Seq<u8>, s: Space, free: Seq<u64>, p: elf::Ph)
    requires
        p.kind == 1,
        elf::load_segment(img, s, free, p) is Ok,
    ensures
        obeyed(img, s, (elf::load_segment(img, s, free, p)->Ok_0).0, p),
        ({
            let g = (elf::load_segment(img, s, free, p)->Ok_0).1;
            &&& free.len() - g.len() == (p.vaddr + p.memsz + 4095) / 4096 - p.vaddr / 4096
            &&& g.is_prefix_of(free)
        }),
{
    reveal(elf::load_segment);
    let n = process::run_count(p.vaddr as int, p.memsz as int);
    lemma_run(
        s,
        free,
        img,
        p.offset as int,
        p.vaddr as int,
        p.filesz as int,
        p.flags % 2 != 0,
        n,
    );
    let low = p.vaddr - p.vaddr % 4096;
    assert(low == p.vaddr / 4096 * 4096);
    assert(low + n * 4096 == (p.vaddr + p.memsz + 4095) / 4096 * 4096);
    assert forall|a: int| #[trigger] covers(p, a) == (low <= a < low + n * 4096) by {}
    let t = (elf::load_segment(img, s, free, p)->Ok_0).0;
    assert(t == process::with_run(
        s,
        free,
        img,
        p.offset as int,
        p.vaddr as int,
        p.filesz as int,
        p.flags % 2 != 0,
        n,
    ));
    assert forall|a: int| covers(p, a) implies #[trigger] t.mem.contains_key(a) && t.mem[a] == fill(
        img,
        p,
        a,
    ) by {}
    assert forall|a: int| !covers(p, a) implies (#[trigger] t.mem.contains_key(a)
        == s.mem.contains_key(a)) && (s.mem.contains_key(a) ==> t.mem[a] == s.mem[a]) by {}
    assert forall|a: int|
        covers(p, a) && a % 4096 == 0 implies #[trigger] t.pages.contains_key(a)
        && t.pages[a].writable && t.pages[a].executable == (p.flags % 2 == 1) by {
        assert(low <= a < low + n * 4096);
        assert(t.pages.contains_key(a));
        assert(t.pages[a].writable);
        assert(t.pages[a].executable == (p.flags % 2 != 0));
    }
    assert forall|a: int| !covers(p, a) implies (#[trigger] t.pages.contains_key(a)
        == s.pages.contains_key(a)) && (s.pages.contains_key(a) ==> t.pages[a] == s.pages[a]) by {}
    assert(obeyed(img, s, t, p));
}

/// The header that the loader reads is the one in the file.
proof fn lemma_header(img: Seq<u8>, k: int)
    ensures
        ({
            let p = elf::ph_at(img, elf::ph_off(img, k));
            let o = header_at(img, k);
            &&& elf::ph_off(img, k) == o
            &&& p.kind == bytes::le32(img, o)
            &&& p.flags == bytes::le32(img, o + 4)
            &&& p.offset == bytes::le64(img, o + 8)
            &&& p.vaddr == bytes::le64(img, o + 16)
            &&& p.filesz == bytes::le64(img, o + 32)
            &&& p.memsz == bytes::le64(img, o + 40)
            &&& forall|a: int| #[trigger] maps(img, k, a) == covers(p, a)
        }),
{
    reveal(elf::ph_off);
    reveal(maps);
}

/// What header `k` put at `a` is there at the end, where no later header maps
/// that page.
proof fn lemma_segment_stays(
    img: Seq<u8>,
    s: Space,
    free: Seq<u64>,
    n: nat,
    k: int,
    p: elf::Ph,
    a: int,
)
    requires
        0 <= k < n,
        elf::load_all(img, s, free, n) is Ok,
        p == elf::ph_at(img, elf::ph_off(img, k)),
        covers(p, a),
        forall|j: int| k < j < n ==> !#[trigger] maps(img, j, a),
    ensures
        ({
            let t = (elf::load_all(img, s, free, n)->Ok_0).0;
            &&& t.mem.contains_key(a)
            &&& t.mem[a] == fill(img, p, a)
            &&& t.pages.contains_key(a / 4096 * 4096)
            &&& t.pages[a / 4096 * 4096].writable
            &&& t.pages[a / 4096 * 4096].executable <==> p.flags % 2 == 1
        }),
    decreases n,
{
    let (u, f) = elf::load_all(img, s, free, (n - 1) as nat)->Ok_0;
    let q = elf::ph_at(img, elf::ph_off(img, n - 1));
    if q.kind == 1 {
        lemma_segment(img, u, f, q);
    }
    let page = a / 4096 * 4096;
    if k < n - 1 {
        lemma_segment_stays(img, s, free, (n - 1) as nat, k, p, a);
        assert(!maps(img, n - 1, a));
        lemma_header(img, n - 1);
        assert(!covers(q, a));
        assert(!covers(q, page));
    } else {
        assert(covers(p, page));
    }
}

/// A loaded segment lies in memory as the file has it: byte `i` is the file's
/// byte `p_offset + i`, and zero from `p_filesz` on. Its pages may be written,
/// and run exactly where the header's flags say so. This holds wherever no
/// later header maps the same page again.
pub proof fn law_segment_lies_in_memory_as_in_the_file(
    img: Seq<u8>,
    s: Space,
    free: Seq<u64>,
    n: nat,
    k: int,
    i: int,
)
    requires
        0 <= k < n,
        elf::load_all(img, s, free, n) is Ok,
        bytes::le32(img, header_at(img, k)) == 1,
        0 <= i < p_memsz(img, k),
        forall|j: int| k < j < n ==> !#[trigger] maps(img, j, p_vaddr(img, k) + i),
    ensures
        ({
            let t = (elf::load_all(img, s, free, n)->Ok_0).0;
            let o = header_at(img, k);
            let a = bytes::le64(img, o + 16) + i;
            &&& t.mem.contains_key(a)
            &&& i < bytes::le64(img, o + 32) ==> t.mem[a] == img[bytes::le64(img, o + 8) + i]
            &&& i >= bytes::le64(img, o + 32) ==> t.mem[a] == 0
            &&& t.pages.contains_key(a / 4096 * 4096)
            &&& t.pages[a / 4096 * 4096].writable
            &&& t.pages[a / 4096 * 4096].executable <==> bytes::le32(img, o + 4) % 2 == 1
        }),
{
    lemma_header(img, k);
    let p = elf::ph_at(img, elf::ph_off(img, k));
    lemma_segment_stays(img, s, free, n, k, p, p_vaddr(img, k) + i);
}

/// An address in no page of any segment is as it was before the load.
pub proof fn law_load_touches_no_other_address(
    img: Seq<u8>,
    s: Space,
    free: Seq<u64>,
    n: nat,
    a: int,
)
    requires
        elf::load_all(img, s, free, n) is Ok,
        forall|j: int| 0 <= j < n ==> !#[trigger] maps(img, j, a),
    ensures
        ({
            let t = (elf::load_all(img, s, free, n)->Ok_0).0;
            &&& t.mem.contains_key(a) == s.mem.contains_key(a)
            &&& s.mem.contains_key(a) ==> t.mem[a] == s.mem[a]
        }),
    decreases n,
{
    if n > 0 {
        let (u, f) = elf::load_all(img, s, free, (n - 1) as nat)->Ok_0;
        let q = elf::ph_at(img, elf::ph_off(img, n - 1));
        law_load_touches_no_other_address(img, s, free, (n - 1) as nat, a);
        assert(!maps(img, n - 1, a));
        lemma_header(img, n - 1);
        if q.kind == 1 {
            lemma_segment(img, u, f, q);
            assert(!covers(q, a));
            let t = (elf::load_all(img, s, free, n)->Ok_0).0;
            assert(obeyed(img, u, t, q));
            assert(t.mem.contains_key(a) == u.mem.contains_key(a));
        }
    }
}

/// A load leaves the cursors for later mappings alone.
pub proof fn law_load_leaves_the_cursors(img: Seq<u8>, s: Space, free: Seq<u64>, n: nat)
    requires
        elf::load_all(img, s, free, n) is Ok,
    ensures
        ({
            let t = (elf::load_all(img, s, free, n)->Ok_0).0;
            t.next_va == s.next_va && t.brk == s.brk
        }),
    decreases n,
{
    if n > 0 {
        let (u, f) = elf::load_all(img, s, free, (n - 1) as nat)->Ok_0;
        law_load_leaves_the_cursors(img, s, free, (n - 1) as nat);
        let p = elf::ph_at(img, elf::ph_off(img, n - 1));
        reveal(elf::load_segment);
        lemma_run(
            u,
            f,
            img,
            p.offset as int,
            p.vaddr as int,
            p.filesz as int,
            p.flags % 2 != 0,
            process::run_count(p.vaddr as int, p.memsz as int),
        );
    }
}

/// Each segment takes the frames that its pages need, and no more.
pub proof fn law_load_takes_a_frame_for_each_page(
    img: Seq<u8>,
    s: Space,
    free: Seq<u64>,
    n: nat,
)
    requires
        n > 0,
        elf::load_all(img, s, free, n) is Ok,
    ensures
        ({
            let (_, f) = elf::load_all(img, s, free, (n - 1) as nat)->Ok_0;
            let (_, g) = elf::load_all(img, s, free, n)->Ok_0;
            let k = n - 1;
            &&& elf::load_all(img, s, free, (n - 1) as nat) is Ok
            &&& !loads(img, k) ==> g == f
            &&& loads(img, k) ==> f.len() - g.len() == (p_vaddr(img, k) + p_memsz(img, k) + 4095)
                / 4096 - p_vaddr(img, k) / 4096 && g.is_prefix_of(f)
        }),
{
    let (u, f) = elf::load_all(img, s, free, (n - 1) as nat)->Ok_0;
    let q = elf::ph_at(img, elf::ph_off(img, n - 1));
    lemma_header(img, n - 1);
    if q.kind == 1 {
        lemma_segment(img, u, f, q);
    }
}

/// The address that a program finds its own header table at (`AT_PHDR`): where
/// the first segment that holds the table puts it.
pub proof fn law_header_table_is_found_in_memory(img: Seq<u8>, n: nat, k: int)
    requires
        0 <= k < n,
        ({
            let table = bytes::le64(img, 32);
            &&& loads(img, k)
            &&& p_offset(img, k) <= table < p_offset(img, k) + p_filesz(img, k)
            &&& 0 < p_vaddr(img, k) + (table - p_offset(img, k)) <= u64::MAX
            &&& forall|j: int|
                0 <= j < k && #[trigger] loads(img, j) ==> !(p_offset(img, j) <= table < p_offset(
                    img,
                    j,
                ) + p_filesz(img, j))
        }),
    ensures
        elf::phdr_va(img, n) == p_vaddr(img, k) + (bytes::le64(img, 32) - p_offset(img, k)),
    decreases n,
{
    reveal(elf::ph_off);
    if k < n - 1 {
        law_header_table_is_found_in_memory(img, (n - 1) as nat, k);
    } else {
        lemma_no_table_before(img, k as nat);
    }
}

proof fn lemma_no_table_before(img: Seq<u8>, k: nat)
    requires
        ({
            let table = bytes::le64(img, 32);
            forall|j: int|
                0 <= j < k && #[trigger] loads(img, j) ==> !(p_offset(img, j) <= table < p_offset(
                    img,
                    j,
                ) + p_filesz(img, j))
        }),
    ensures
        elf::phdr_va(img, k) == 0,
    decreases k,
{
    reveal(elf::ph_off);
    if k > 0 {
        lemma_no_table_before(img, (k - 1) as nat);
        assert(loads(img, k - 1) == (elf::ph_at(img, elf::ph_off(img, k - 1)).kind == 1));
    }
}

} // verus!
