//! How the machine's memory is parted: which frames may be handed out, and
//! where the kernel finds its image and all of memory.
use vstd::prelude::*;

use crate::mm;
use crate::mm::Entry;
use crate::vmm;
use crate::vmm::{Mapping, Section};

verus! {

/// The page at `p` lies whole in a region that may be used.
pub open spec fn usable_page(es: Seq<Entry>, p: int) -> bool {
    &&& p % 4096 == 0
    &&& exists|i: int|
        0 <= i < es.len() && (#[trigger] es[i]).usable && es[i].base <= p && p + 4096 <= es[i].base
            + es[i].length
}

proof fn lemma_region(e: Entry, p: int)
    requires
        e.base + e.length <= u64::MAX,
    ensures
        (exists|k: int| 0 <= k < mm::frames_of(e).len() && #[trigger] mm::frames_of(e)[k] == p) <==> (
        e.usable && p % 4096 == 0 && e.base <= p && p + 4096 <= e.base + e.length),
{
    let f = mm::frames_of(e);
    let lo = mm::frame_span(e).0;
    let hi = mm::frame_span(e).1;
    if e.usable && p % 4096 == 0 && e.base <= p && p + 4096 <= e.base + e.length {
        let k = (p - lo) / 4096;
        assert(lo <= p);
        assert(p + 4096 <= hi);
        assert(0 <= k < f.len());
        assert(lo + k * 4096 == p);
        assert(f[k] == p);
    }
    if exists|k: int| 0 <= k < f.len() && #[trigger] f[k] == p {
        let k = choose|k: int| 0 <= k < f.len() && #[trigger] f[k] == p;
        assert(lo + k * 4096 + 4096 <= hi);
        assert(f[k] == lo + k * 4096);
    }
}

/// The frames that can be handed out are just the whole pages of the regions
/// that may be used.
pub proof fn law_free_frames_are_the_usable_pages(es: Seq<Entry>, p: int)
    requires
        forall|i: int| 0 <= i < es.len() ==> (#[trigger] es[i]).base + es[i].length <= u64::MAX,
    ensures
        (exists|k: int| 0 <= k < mm::frames_in(es).len() && #[trigger] mm::frames_in(es)[k] == p)
            <==> usable_page(es, p),
    decreases es.len(),
{
    if es.len() > 0 {
        let d = es.drop_last();
        let e = es.last();
        assert forall|i: int| 0 <= i < d.len() implies (#[trigger] d[i]).base + d[i].length
            <= u64::MAX by {
            assert(d[i] == es[i]);
        }
        law_free_frames_are_the_usable_pages(d, p);
        assert(e == es[es.len() - 1]);
        lemma_region(e, p);
        let a = mm::frames_in(d);
        let b = mm::frames_of(e);
        let all = mm::frames_in(es);
        if exists|k: int| 0 <= k < all.len() && #[trigger] all[k] == p {
            let k = choose|k: int| 0 <= k < all.len() && #[trigger] all[k] == p;
            if k < a.len() {
                assert(a[k] == p);
                assert(usable_page(d, p));
                let i = choose|i: int|
                    0 <= i < d.len() && (#[trigger] d[i]).usable && d[i].base <= p && p + 4096
                        <= d[i].base + d[i].length;
                assert(es[i] == d[i]);
            } else {
                assert(b[k - a.len()] == p);
                assert(es[es.len() - 1].usable);
            }
        }
        if usable_page(es, p) {
            let i = choose|i: int|
                0 <= i < es.len() && (#[trigger] es[i]).usable && es[i].base <= p && p + 4096
                    <= es[i].base + es[i].length;
            if i < d.len() {
                assert(d[i] == es[i]);
                assert(usable_page(d, p));
                let k = choose|k: int| 0 <= k < a.len() && #[trigger] a[k] == p;
                assert(all[k] == p);
            } else {
                let k = choose|k: int| 0 <= k < b.len() && #[trigger] b[k] == p;
                assert(all[a.len() + k] == p);
            }
        }
    }
}

/// The mapping `m` takes the address `v` to `p`.
pub open spec fn takes(m: Mapping, v: int, p: int) -> bool {
    let size = if m.big {
        0x4000_0000int
    } else {
        4096
    };
    m.virt <= v < m.virt + size && p == m.phys + (v - m.virt)
}

/// Every address of a section of the image is mapped, with the section's
/// rights, to the place in memory that the image was put at.
pub proof fn law_image_is_mapped_where_it_lies(
    s: Section,
    phys_base: u64,
    virt_base: u64,
    v: int,
)
    requires
        vmm::placed(s, phys_base, virt_base),
        s.start <= v < s.end,
    ensures
        ({
            let ms = vmm::section_pages(s, phys_base, virt_base);
            let k = (v - (s.start - s.start % 4096)) / 4096;
            &&& 0 <= k < ms.len()
            &&& takes(ms[k], v, phys_base + (v - virt_base))
            &&& ms[k].flags == vmm::rights(s.writable, false, s.executable)
        }),
{
    let lo = s.start - s.start % 4096;
    let k = (v - lo) / 4096;
    let ms = vmm::section_pages(s, phys_base, virt_base);
    assert(lo + k * 4096 <= v < lo + k * 4096 + 4096);
    assert(k < ms.len());
    assert(ms[k] == vmm::image_page(s, lo + k * 4096, phys_base, virt_base));
}

proof fn lemma_top(es: Seq<Entry>, i: int)
    requires
        0 <= i < es.len(),
    ensures
        es[i].base + es[i].length <= vmm::top_of(es),
    decreases es.len(),
{
    if i < es.len() - 1 {
        lemma_top(es.drop_last(), i);
        assert(es.drop_last()[i] == es[i]);
    }
}

/// Every byte of every region of memory, as far as the direct map reaches, is
/// mapped at the map's base plus its own address, to be written and never run.
pub proof fn law_all_memory_is_mapped_at_a_fixed_distance(
    hhdm: u64,
    es: Seq<Entry>,
    i: int,
    p: int,
)
    requires
        0 <= i < es.len(),
        es[i].base <= p < es[i].base + es[i].length,
        p < vmm::HHDM_MAX_GIB * 0x4000_0000,
        hhdm + vmm::direct_gib(es) * 0x4000_0000 <= u64::MAX,
    ensures
        ({
            let ms = vmm::big_pages(hhdm, vmm::direct_gib(es));
            let k = p / 0x4000_0000;
            &&& 0 <= k < ms.len()
            &&& takes(ms[k], hhdm + p, p)
            &&& ms[k].flags == vmm::rights(true, false, false)
        }),
{
    lemma_top(es, i);
    let k = p / 0x4000_0000;
    let n = vmm::direct_gib(es);
    assert(k < n);
    let ms = vmm::big_pages(hhdm, n);
    assert(ms[k].virt == hhdm + k * 0x4000_0000);
    assert(ms[k].phys == k * 0x4000_0000);
}

} // verus!
