//! A process address space: user pages with their contents, the program
//! break, and the bump allocator behind `mmap` and stacks.
use std::collections::BTreeMap;

use vstd::prelude::*;

use crate::mm;
use crate::mm::FrameAllocator;

verus! {

pub const PAGE_SIZE: u64 = 4096;

/// User virtual space for `mmap` and stacks, clear of typical load addresses.
pub const USER_ALLOC_BASE: u64 = 0x0000_7000_0000_0000;

pub const USER_STACK_SIZE: u64 = 0x1_0000;

pub const BRK_BASE: u64 = 0x0000_6800_0000_0000;

pub const BRK_MAX: u64 = 0x0000_6800_1000_0000;

/// One mapped 4 KiB page: the physical frame behind it, what it holds, and
/// what ring 3 may do with it.
pub struct Page {
    pub frame: u64,
    pub bytes: Vec<u8>,
    pub writable: bool,
    pub executable: bool,
}

/// The attributes of a mapped page.
pub struct PageInfo {
    pub frame: u64,
    pub writable: bool,
    pub executable: bool,
}

/// One address space.
pub struct Process {
    pml4_phys: u64,
    pages: BTreeMap<u64, Page>,
    /// Next free user virtual address for `mmap` and stacks.
    next_user_va: u64,
    /// Program break for `brk`.
    brk: u64,
}

/// What an address space is: the frame of its page-table root, the bytes user
/// code can reach, the attributes of each page by its first address, and the two
/// allocation cursors.
#[verifier::ext_equal]
pub struct Space {
    pub root: u64,
    pub mem: Map<int, u8>,
    pub pages: Map<int, PageInfo>,
    pub next_va: u64,
    pub brk: u64,
}

/// The first address of the page that holds `a`.
pub open spec fn page_of(a: int) -> int {
    a - a % 4096
}

/// Every address in `[a, a + n)` is mapped.
pub open spec fn mapped(m: Map<int, u8>, a: int, n: int) -> bool {
    forall|i: int| a <= i < a + n ==> #[trigger] m.contains_key(i)
}

/// The `n` bytes from `a` on.
pub open spec fn peek(m: Map<int, u8>, a: int, n: nat) -> Seq<u8> {
    Seq::new(n, |i: int| m[a + i])
}

/// The memory after `b` was stored at `a`.
pub open spec fn poke(m: Map<int, u8>, a: int, b: Seq<u8>) -> Map<int, u8> {
    Map::new(
        |i: int| m.contains_key(i),
        |i: int|
            if a <= i < a + b.len() {
                b[i - a]
            } else {
                m[i]
            },
    )
}

/// The memory after the page at `va` was mapped with contents `b`.
pub open spec fn with_page(m: Map<int, u8>, va: int, b: Seq<u8>) -> Map<int, u8> {
    Map::new(
        |i: int| m.contains_key(i) || va <= i < va + 4096,
        |i: int|
            if va <= i < va + 4096 {
                b[i - va]
            } else {
                m[i]
            },
    )
}

/// The first `n` pages from `va` on, each zeroed, writable and not executable,
/// taking frames from the top of `free`.
pub open spec fn with_zero_pages(s: Space, free: Seq<u64>, va: int, n: nat) -> Space
    decreases n,
{
    if n == 0 {
        s
    } else {
        let t = with_zero_pages(s, free, va, (n - 1) as nat);
        let at = va + (n - 1) * 4096;
        Space {
            mem: with_page(t.mem, at, crate::bytes::zeros(4096)),
            pages: t.pages.insert(
                at,
                PageInfo {
                    frame: mm::down(free[free.len() - n] as int, 4096) as u64,
                    writable: true,
                    executable: false,
                },
            ),
            ..t
        }
    }
}

impl Process {
    /// Every page is whole and aligned, and so is every frame; the cursors
    /// stay inside their regions.
    pub closed spec fn wf(self) -> bool {
        &&& forall|k: u64| #[trigger]
            self.pages@.contains_key(k) ==> k % 4096 == 0 && self.pages@[k].bytes@.len() == 4096
                && self.pages@[k].frame % 4096 == 0
        &&& self.next_user_va % 4096 == 0
        &&& BRK_BASE <= self.brk <= BRK_MAX
    }

    /// The frame of the page-table root.
    pub open spec fn pml4(self) -> u64 {
        self@.root
    }
}

impl View for Process {
    type V = Space;

    closed spec fn view(&self) -> Space {
        Space {
            root: self.pml4_phys,
            mem: Map::new(
                |a: int| 0 <= a <= u64::MAX && self.pages@.contains_key(page_of(a) as u64),
                |a: int| self.pages@[page_of(a) as u64].bytes@[a % 4096],
            ),
            pages: Map::new(
                |a: int| 0 <= a <= u64::MAX && self.pages@.contains_key(a as u64),
                |a: int|
                    PageInfo {
                        frame: self.pages@[a as u64].frame,
                        writable: self.pages@[a as u64].writable,
                        executable: self.pages@[a as u64].executable,
                    },
            ),
            next_va: self.next_user_va,
            brk: self.brk,
        }
    }
}

/// No frame backs two pages, and no frame that backs a page is on the free
/// list, nor is any frame on the list twice.
#[verifier::opaque]
pub open spec fn exclusive(s: Space, free: Seq<u64>) -> bool {
    &&& forall|a: int, b: int|
        #![trigger s.pages[a], s.pages[b]]
        s.pages.contains_key(a) && s.pages.contains_key(b) && a != b ==> s.pages[a].frame
            != s.pages[b].frame
    &&& forall|a: int, i: int|
        #![trigger s.pages[a], free[i]]
        s.pages.contains_key(a) && 0 <= i < free.len() ==> s.pages[a].frame != mm::down(
            free[i] as int,
            4096,
        )
    &&& forall|i: int, j: int|
        #![trigger free[i], free[j]]
        0 <= i < j < free.len() ==> mm::down(free[i] as int, 4096) != mm::down(free[j] as int, 4096)
}

impl Process {
    /// An empty user half under the page-table root at `pml4_phys`.
    pub fn new(pml4_phys: u64) -> (r: Process)
        ensures
            r.wf(),
            r@ == (Space {
                root: pml4_phys,
                mem: Map::empty(),
                pages: Map::empty(),
                next_va: USER_ALLOC_BASE,
                brk: BRK_BASE,
            }),
    {
        let r = Process {
            pml4_phys,
            pages: BTreeMap::new(),
            next_user_va: USER_ALLOC_BASE,
            brk: BRK_BASE,
        };
        assert(r@.mem =~= Map::<int, u8>::empty());
        assert(r@.pages =~= Map::<int, PageInfo>::empty());
        r
    }

    pub fn pml4_phys(&self) -> (r: u64)
        ensures
            r == self.pml4(),
    {
        self.pml4_phys
    }

    /// Take over the allocation cursors of `other`.
    pub fn copy_alloc_state_from(&mut self, other: &Process)
        requires
            old(self).wf(),
            other.wf(),
        ensures
            final(self).wf(),
            final(self).pml4() == old(self).pml4(),
            final(self)@ == (Space { next_va: other@.next_va, brk: other@.brk, ..old(self)@ }),
    {
        self.next_user_va = other.next_user_va;
        self.brk = other.brk;
        assert(self@.mem =~= old(self)@.mem);
        assert(self@.pages =~= old(self)@.pages);
    }

    /// Map the 4 KiB page that holds `virt` on the frame `phys` with contents
    /// `bytes`, in place of whatever was mapped there.
    #[verifier::rlimit(50)]
    #[verifier::spinoff_prover]
    pub fn map(&mut self, virt: u64, phys: u64, bytes: Vec<u8>, writable: bool, executable: bool)
        requires
            old(self).wf(),
            bytes@.len() == 4096,
            phys % 4096 == 0,
        ensures
            final(self).wf(),
            final(self).pml4() == old(self).pml4(),
            final(self)@ == (Space {
                mem: with_page(old(self)@.mem, page_of(virt as int), bytes@),
                pages: old(self)@.pages.insert(
                    page_of(virt as int),
                    PageInfo { frame: phys, writable, executable },
                ),
                ..old(self)@
            }),
    {
        let base: u64 = virt - virt % PAGE_SIZE;
        self.pages.insert(base, Page { frame: phys, bytes, writable, executable });
        proof {
            let want = with_page(old(self)@.mem, page_of(virt as int), bytes@);
            assert forall|a: int| self@.mem.contains_key(a) == want.contains_key(a) by {
                if base <= a < base + 4096 {
                    assert(page_of(a) == base);
                }
            }
            assert forall|a: int| want.contains_key(a) implies self@.mem[a] == want[a] by {
                if base <= a < base + 4096 {
                    assert(page_of(a) == base);
                    assert(a % 4096 == a - base);
                }
            }
            assert(self@.mem =~= want);
            assert(self@.pages =~= old(self)@.pages.insert(
                page_of(virt as int),
                PageInfo { frame: phys, writable, executable },
            ));
        }
    }

    /// Map the page that holds `virt` on a fresh frame, with contents `bytes`.
    /// `false`, and nothing changed, when no frame is left.
    #[verifier::rlimit(50)]
    #[verifier::spinoff_prover]
    pub fn map_fresh(
        &mut self,
        fa: &mut FrameAllocator,
        virt: u64,
        bytes: Vec<u8>,
        writable: bool,
        executable: bool,
    ) -> (ok: bool)
        requires
            old(self).wf(),
            bytes@.len() == 4096,
        ensures
            final(self).wf(),
            final(self).pml4() == old(self).pml4(),
            ok == (old(fa)@.len() > 0),
            !ok ==> final(self)@ == old(self)@ && final(fa)@ == old(fa)@,
            ok ==> final(fa)@ == old(fa)@.drop_last(),
            ok ==> final(self)@ == (Space {
                mem: with_page(old(self)@.mem, page_of(virt as int), bytes@),
                pages: old(self)@.pages.insert(
                    page_of(virt as int),
                    PageInfo {
                        frame: mm::down(old(fa)@.last() as int, 4096) as u64,
                        writable,
                        executable,
                    },
                ),
                ..old(self)@
            }),
            exclusive(old(self)@, old(fa)@) ==> exclusive(final(self)@, final(fa)@),
    {
        match fa.alloc_frame() {
            Some(frame) => {
                assert(frame % 4096 == 0);
                self.map(virt, frame, bytes, writable, executable);
                proof {
                    if exclusive(old(self)@, old(fa)@) {
                        lemma_exclusive_map(
                            old(self)@,
                            old(fa)@,
                            self@,
                            page_of(virt as int),
                            PageInfo { frame, writable, executable },
                        );
                    }
                }
                true
            },
            None => false,
        }
    }

    fn map_zeroed(&mut self, fa: &mut FrameAllocator, virt: u64) -> (ok: bool)
        requires
            old(self).wf(),
        ensures
            final(self).wf(),
            final(self).pml4() == old(self).pml4(),
            ok == (old(fa)@.len() > 0),
            !ok ==> final(self)@ == old(self)@ && final(fa)@ == old(fa)@,
            ok ==> final(fa)@ == old(fa)@.drop_last(),
            ok ==> final(self)@ == (Space {
                mem: with_page(
                    old(self)@.mem,
                    page_of(virt as int),
                    crate::bytes::zeros(4096),
                ),
                pages: old(self)@.pages.insert(
                    page_of(virt as int),
                    PageInfo {
                        frame: mm::down(old(fa)@.last() as int, 4096) as u64,
                        writable: true,
                        executable: false,
                    },
                ),
                ..old(self)@
            }),
            exclusive(old(self)@, old(fa)@) ==> exclusive(final(self)@, final(fa)@),
    {
        self.map_fresh(fa, virt, crate::bytes::zeroed(4096), true, false)
    }

    /// Map `n` zeroed pages from the page address `va` on.
    #[verifier::rlimit(50)]
    #[verifier::spinoff_prover]
    fn map_zero_run(&mut self, fa: &mut FrameAllocator, va: u64, n: u64)
        requires
            old(self).wf(),
            va % 4096 == 0,
            n <= old(fa)@.len(),
            va + n * 4096 <= u64::MAX,
        ensures
            final(self).wf(),
            final(self).pml4() == old(self).pml4(),
            final(self)@ == with_zero_pages(old(self)@, old(fa)@, va as int, n as nat),
            final(fa)@ == old(fa)@.take(old(fa)@.len() - n),
            exclusive(old(self)@, old(fa)@) ==> exclusive(final(self)@, final(fa)@),
    {
        let ghost free = fa@;
        let mut i: u64 = 0;
        assert(fa@.take(fa@.len() as int) =~= fa@);
        while i < n
            invariant
                i <= n,
                va % 4096 == 0,
                va + n * 4096 <= u64::MAX,
                free == old(fa)@,
                n <= free.len(),
                self.wf(),
                self.pml4() == old(self).pml4(),
                self@ == with_zero_pages(old(self)@, free, va as int, i as nat),
                fa@ == free.take(free.len() - i),
                exclusive(old(self)@, free) ==> exclusive(self@, fa@),
            decreases n - i,
        {
            let at: u64 = va + i * PAGE_SIZE;
            assert(page_of(at as int) == at);
            let ghost before = fa@;
            let ok = self.map_zeroed(fa, at);
            assert(before.last() == free[free.len() - (i + 1)]);
            assert(fa@ =~= free.take(free.len() - (i + 1)));
            i = i + 1;
        }
    }

    /// Whether every byte of `[va, va + len)` is mapped.
    #[verifier::rlimit(60)]
    #[verifier::spinoff_prover]
    pub fn is_mapped(&self, va: u64, len: u64) -> (r: bool)
        requires
            self.wf(),
        ensures
            r == mapped(self@.mem, va as int, len as int),
    {
        if len == 0 {
            return true;
        }
        if len - 1 > u64::MAX - va {
            assert(!self@.mem.contains_key(u64::MAX + 1));
            return false;
        }
        let last: u64 = va + (len - 1);
        let end: u64 = last - last % PAGE_SIZE;
        let mut page: u64 = va - va % PAGE_SIZE;
        loop
            invariant
                self.wf(),
                len > 0,
                last == va + len - 1,
                end == page_of(last as int),
                page % 4096 == 0,
                page_of(va as int) <= page <= end,
                forall|i: int| va <= i < page ==> #[trigger] self@.mem.contains_key(i),
            decreases end - page,
        {
            if !self.pages.contains_key(&page) {
                proof {
                    let w: int = if page < va { va as int } else { page as int };
                    assert(page_of(w) == page);
                    assert(!self@.mem.contains_key(w));
                }
                return false;
            }
            assert forall|i: int| va <= i < page + 4096 && i <= last implies #[trigger] self@.mem.contains_key(i) by {
                if i >= page {
                    assert(page_of(i) == page);
                }
            }
            if page == end {
                return true;
            }
            page = page + PAGE_SIZE;
        }
    }

    /// The byte at `va`, if it is mapped.
    pub fn read_u8(&self, va: u64) -> (r: Option<u8>)
        requires
            self.wf(),
        ensures
            r == (if self@.mem.contains_key(va as int) {
                Some(self@.mem[va as int])
            } else {
                None
            }),
    {
        let base: u64 = va - va % PAGE_SIZE;
        match self.pages.get(&base) {
            Some(p) => Some(p.bytes[(va % PAGE_SIZE) as usize]),
            None => None,
        }
    }

    /// The `len` bytes at `va`, if all of them are mapped.
    pub fn read(&self, va: u64, len: usize) -> (r: Option<Vec<u8>>)
        requires
            self.wf(),
        ensures
            r is Some <==> mapped(self@.mem, va as int, len as int),
            r is Some ==> r->0@ == peek(self@.mem, va as int, len as nat),
    {
        if !self.is_mapped(va, len as u64) {
            return None;
        }
        let mut out: Vec<u8> = Vec::new();
        let mut i: usize = 0;
        while i < len
            invariant
                i <= len,
                self.wf(),
                mapped(self@.mem, va as int, len as int),
                out@ == peek(self@.mem, va as int, i as nat),
            decreases len - i,
        {
            assert(self@.mem.contains_key(va + i));
            assert(va + i <= u64::MAX);
            match self.read_u8(va + i as u64) {
                Some(b) => out.push(b),
                None => (),
            }
            i = i + 1;
            assert(out@ =~= peek(self@.mem, va as int, i as nat));
        }
        Some(out)
    }

    #[verifier::rlimit(50)]
    #[verifier::spinoff_prover]
    fn set_byte(&mut self, va: u64, b: u8)
        requires
            old(self).wf(),
            old(self)@.mem.contains_key(va as int),
        ensures
            final(self).wf(),
            final(self).pml4() == old(self).pml4(),
            final(self)@ == (Space { mem: old(self)@.mem.insert(va as int, b), ..old(self)@ }),
    {
        let base: u64 = va - va % PAGE_SIZE;
        assert(page_of(va as int) == base);
        match self.pages.remove(&base) {
            Some(p) => {
                let mut page = p;
                page.bytes[(va % PAGE_SIZE) as usize] = b;
                self.pages.insert(base, page);
                proof {
                    let want = old(self)@.mem.insert(va as int, b);
                    assert forall|a: int| want.contains_key(a) implies self@.mem[a] == want[a] by {
                        if page_of(a) == base {
                            assert(a == base + a % 4096);
                            assert(va == base + va % 4096);
                        }
                    }
                    assert(self@.mem =~= want);
                    assert(self@.pages =~= old(self)@.pages);
                }
            },
            None => (),
        }
    }

    /// Copy bytes into this address space at `virt`.
    #[verifier::rlimit(50)]
    #[verifier::spinoff_prover]
    pub fn write_user(&mut self, virt: u64, data: &[u8])
        requires
            old(self).wf(),
            mapped(old(self)@.mem, virt as int, data@.len() as int),
        ensures
            final(self).wf(),
            final(self).pml4() == old(self).pml4(),
            final(self)@ == (Space { mem: poke(old(self)@.mem, virt as int, data@), ..old(self)@ }),
    {
        let n: usize = data.len();
        let mut i: usize = 0;
        assert(poke(self@.mem, virt as int, data@.take(0)) =~= self@.mem);
        while i < n
            invariant
                i <= n,
                n == data@.len(),
                self.wf(),
                self.pml4() == old(self).pml4(),
                mapped(old(self)@.mem, virt as int, n as int),
                self@ == (Space {
                    mem: poke(old(self)@.mem, virt as int, data@.take(i as int)),
                    ..old(self)@
                }),
            decreases n - i,
        {
            assert(old(self)@.mem.contains_key(virt + i));
            assert(self@.mem.contains_key(virt + i));
            proof {
                lemma_mem_range(*self, virt + i);
            }
            self.set_byte(virt + i as u64, data[i]);
            i = i + 1;
            assert(self@.mem =~= poke(old(self)@.mem, virt as int, data@.take(i as int)));
        }
        assert(data@.take(n as int) =~= data@);
    }

    /// Store `data` at `virt` if the whole range is mapped; `false`, and
    /// nothing changed, otherwise.
    pub fn store(&mut self, virt: u64, data: &[u8]) -> (ok: bool)
        requires
            old(self).wf(),
        ensures
            final(self).wf(),
            final(self).pml4() == old(self).pml4(),
            ok == mapped(old(self)@.mem, virt as int, data@.len() as int),
            !ok ==> final(self)@ == old(self)@,
            ok ==> final(self)@ == (Space {
                mem: poke(old(self)@.mem, virt as int, data@),
                ..old(self)@
            }),
    {
        if !self.is_mapped(virt, data.len() as u64) {
            return false;
        }
        self.write_user(virt, data);
        true
    }

    /// The physical address behind `virt`, if it is mapped.
    pub fn translate(&self, virt: u64) -> (r: Option<u64>)
        requires
            self.wf(),
        ensures
            r == (if self@.pages.contains_key(page_of(virt as int)) {
                Some((self@.pages[page_of(virt as int)].frame + virt % 4096) as u64)
            } else {
                None
            }),
    {
        let base: u64 = virt - virt % PAGE_SIZE;
        match self.pages.get(&base) {
            Some(p) => Some(p.frame + virt % PAGE_SIZE),
            None => None,
        }
    }

    /// `brk(0)` returns the current break; `brk(addr)` grows or sets it.
    /// Nothing when the new pages would need more frames than are left.
    pub fn brk(&mut self, fa: &mut FrameAllocator, req: u64) -> (r: Option<u64>)
        requires
            old(self).wf(),
        ensures
            final(self).wf(),
            final(self).pml4() == old(self).pml4(),
            exclusive(old(self)@, old(fa)@) ==> exclusive(final(self)@, final(fa)@),
            ({
                let cur = old(self)@.brk as int;
                let grow = brk_pages(cur, req as int);
                if req < BRK_BASE || req > BRK_MAX {
                    r == Some(cur as u64) && final(self)@ == old(self)@ && final(fa)@ == old(fa)@
                } else if grow > old(fa)@.len() {
                    r is None && final(self)@ == old(self)@ && final(fa)@ == old(fa)@
                } else {
                    &&& r == Some(req)
                    &&& final(self)@ == (Space {
                        brk: req,
                        ..with_zero_pages(old(self)@, old(fa)@, page_up(cur), grow)
                    })
                    &&& final(fa)@ == old(fa)@.take(old(fa)@.len() - grow)
                }
            }),
    {
        let cur: u64 = self.brk;
        if req < BRK_BASE || req > BRK_MAX {
            return Some(cur);
        }
        let v: u64 = crate::mm::align_up(cur, PAGE_SIZE);
        let end: u64 = crate::mm::align_up(req, PAGE_SIZE);
        let n: u64 = if end > v {
            (end - v) / PAGE_SIZE
        } else {
            0
        };
        if n > fa.free_frames() {
            return None;
        }
        self.map_zero_run(fa, v, n);
        let ghost mid = self@;
        self.brk = req;
        assert(self@.mem =~= mid.mem);
        assert(self@.pages =~= mid.pages);
        reveal(exclusive);
        Some(req)
    }

    /// Anonymous `mmap`: map `len` bytes, rounded up to pages, at the cursor
    /// and return the base. A guard page stays free behind the mapping.
    /// Nothing when frames or addresses run out.
    pub fn mmap_anon(&mut self, fa: &mut FrameAllocator, len: u64) -> (r: Option<u64>)
        requires
            old(self).wf(),
        ensures
            final(self).wf(),
            final(self).pml4() == old(self).pml4(),
            exclusive(old(self)@, old(fa)@) ==> exclusive(final(self)@, final(fa)@),
            (final(self)@, final(fa)@, r) == mapped_anon(old(self)@, old(fa)@, len),
            r matches Some(b) ==> b % 4096 == 0,
    {
        let full: u64 = len / PAGE_SIZE;
        let n: u64 = if len % PAGE_SIZE == 0 {
            full
        } else {
            full + 1
        };
        assert(n == page_up(len as int) / 4096);
        let base: u64 = self.next_user_va;
        if n > fa.free_frames() || n >= (u64::MAX - base) / PAGE_SIZE {
            return None;
        }
        self.map_zero_run(fa, base, n);
        let ghost mid = self@;
        self.next_user_va = base + n * PAGE_SIZE + PAGE_SIZE;
        assert(self@.mem =~= mid.mem);
        assert(self@.pages =~= mid.pages);
        reveal(exclusive);
        Some(base)
    }

    /// Map a fresh user stack and return its page-aligned top; nothing when
    /// frames or addresses run out.
    pub fn new_user_stack(&mut self, fa: &mut FrameAllocator) -> (r: Option<u64>)
        requires
            old(self).wf(),
        ensures
            final(self).wf(),
            final(self).pml4() == old(self).pml4(),
            exclusive(old(self)@, old(fa)@) ==> exclusive(final(self)@, final(fa)@),
            ({
                let base = old(self)@.next_va as int;
                if 16 <= old(fa)@.len() && base + 17 * 4096 <= u64::MAX {
                    &&& r == Some((base + USER_STACK_SIZE) as u64)
                    &&& final(self)@ == (Space {
                        next_va: (base + 17 * 4096) as u64,
                        ..with_zero_pages(old(self)@, old(fa)@, base, 16)
                    })
                    &&& final(fa)@ == old(fa)@.take(old(fa)@.len() - 16)
                } else {
                    r is None && final(self)@ == old(self)@ && final(fa)@ == old(fa)@
                }
            }),
    {
        match self.mmap_anon(fa, USER_STACK_SIZE) {
            Some(base) => Some(base + USER_STACK_SIZE),
            None => None,
        }
    }

    /// The addresses of all pages, each once.
    fn page_keys(&self) -> (r: Vec<u64>)
        ensures
            r@.no_duplicates(),
            r@.to_set() == self.pages@.dom(),
    {
        let mut r: Vec<u64> = Vec::new();
        for k in it: self.pages.keys()
            invariant
                it.seq().unref().to_set() == self.pages@.dom(),
                it.seq().no_duplicates(),
                r@ == it.seq().unref().take(it.index() as int),
        {
            r.push(*k);
            assert(r@ =~= it.seq().unref().take(it.index() + 1));
        }
        proof {
            let keys = vstd::std_specs::iter::IteratorSpec::remaining(
                &vstd::std_specs::btree::spec_keys_iter(&self.pages),
            );
            assert(r@ =~= keys.unref());
            assert forall|i: int, j: int| 0 <= i < j < r@.len() implies r@[i] != r@[j] by {
                assert(*keys[i] == r@[i] && *keys[j] == r@[j]);
            }
        }
        r
    }

    /// Every user page once: address, frame, writable, executable.
    #[verifier::rlimit(50)]
    #[verifier::spinoff_prover]
    pub fn user_pages(&self) -> (r: Vec<(u64, u64, bool, bool)>)
        requires
            self.wf(),
        ensures
            forall|i: int|
                0 <= i < r@.len() ==> (#[trigger] r@[i]).0 < USER_END && self@.pages.contains_key(
                    r@[i].0 as int,
                ) && self@.pages[r@[i].0 as int] == (PageInfo {
                    frame: r@[i].1,
                    writable: r@[i].2,
                    executable: r@[i].3,
                }),
            forall|a: int|
                0 <= a < USER_END && #[trigger] self@.pages.contains_key(a) ==> exists|i: int|
                    0 <= i < r@.len() && (#[trigger] r@[i]).0 == a,
            forall|i: int, j: int| 0 <= i < j < r@.len() ==> r@[i].0 != r@[j].0,
    {
        let keys = self.page_keys();
        let mut r: Vec<(u64, u64, bool, bool)> = Vec::new();
        let n: usize = keys.len();
        let mut q: usize = 0;
        while q < n
            invariant
                q <= n,
                n == keys@.len(),
                self.wf(),
                keys@.no_duplicates(),
                keys@.to_set() == self.pages@.dom(),
                forall|i: int|
                    0 <= i < r@.len() ==> (#[trigger] r@[i]).0 < USER_END
                        && self@.pages.contains_key(r@[i].0 as int)
                        && self@.pages[r@[i].0 as int] == (PageInfo {
                        frame: r@[i].1,
                        writable: r@[i].2,
                        executable: r@[i].3,
                    }),
                forall|w: int|
                    0 <= w < q && (#[trigger] keys@[w]) < USER_END ==> exists|i: int|
                        0 <= i < r@.len() && (#[trigger] r@[i]).0 == keys@[w],
                forall|i: int|
                    0 <= i < r@.len() ==> keys@.take(q as int).contains((#[trigger] r@[i]).0),
                forall|i: int, j: int| 0 <= i < j < r@.len() ==> r@[i].0 != r@[j].0,
            decreases n - q,
        {
            let k: u64 = keys[q];
            let ghost r0 = r@;
            assert(keys@.to_set().contains(k));
            assert(!keys@.take(q as int).contains(k));
            assert(keys@.take(q + 1) =~= keys@.take(q as int).push(k));
            if k < USER_END {
                match self.pages.get(&k) {
                    Some(p) => {
                        r.push((k, p.frame, p.writable, p.executable));
                        assert(r@[r0.len() as int].0 == k);
                        assert(forall|i: int| 0 <= i < r0.len() ==> r@[i] == r0[i]);
                        assert(keys@.take(q + 1)[q as int] == k);
                    },
                    None => (),
                }
            }
            assert forall|i: int| 0 <= i < r@.len() implies keys@.take(q + 1).contains(
                (#[trigger] r@[i]).0,
            ) by {
                if i < r0.len() {
                    let w = choose|w: int|
                        0 <= w < keys@.take(q as int).len() && keys@.take(q as int)[w] == r@[i].0;
                    assert(keys@.take(q + 1)[w] == r@[i].0);
                }
            }
            q = q + 1;
        }
        assert forall|a: int| 0 <= a < USER_END && #[trigger] self@.pages.contains_key(a) implies exists|
            i: int,
        | 0 <= i < r@.len() && (#[trigger] r@[i]).0 == a by {
            assert(keys@.to_set().contains(a as u64));
            let w = choose|w: int| 0 <= w < keys@.len() && keys@[w] == a as u64;
            assert(keys@[w] < USER_END);
        }
        r
    }

    /// An eager copy of this address space for a forked child, on fresh
    /// frames. Nothing when they run out.
    #[verifier::rlimit(50)]
    #[verifier::spinoff_prover]
    pub fn duplicate(&self, fa: &mut FrameAllocator, pml4_phys: u64) -> (r: Option<Process>)
        requires
            self.wf(),
        ensures
            match r {
                Some(c) => {
                    &&& c.wf()
                    &&& c.pml4() == pml4_phys
                    &&& copied(self@, old(fa)@, c@, final(fa)@)
                },
                None => old(fa)@.len() < user_page_set(self@).len(),
            },
    {
        reveal(exclusive);
        let list = self.user_pages();
        let mut c = Process::new(pml4_phys);
        c.copy_alloc_state_from(self);
        let n: usize = list.len();
        let mut i: usize = 0;
        proof {
            self.lemma_page_count(list@);
            assert(fa@.take(fa@.len() as int) =~= fa@);
        }
        let ghost free = fa@;
        while i < n
            invariant
                i <= n,
                n == list@.len(),
                n == user_page_set(self@).len(),
                self.wf(),
                c.wf(),
                c.pml4() == pml4_phys,
                c@.next_va == self@.next_va,
                c@.brk == self@.brk,
                free == old(fa)@,
                i <= free.len(),
                fa@ == free.take(free.len() - i),
                forall|j: int|
                    0 <= j < n ==> (#[trigger] list@[j]).0 < USER_END && self@.pages.contains_key(
                        list@[j].0 as int,
                    ) && self@.pages[list@[j].0 as int] == (PageInfo {
                        frame: list@[j].1,
                        writable: list@[j].2,
                        executable: list@[j].3,
                    }),
                forall|j: int, k: int| 0 <= j < k < n ==> list@[j].0 != list@[k].0,
                forall|a: int| #[trigger]
                    c@.pages.contains_key(a) <==> exists|j: int|
                        0 <= j < i && (#[trigger] list@[j]).0 == a,
                forall|a: int| #[trigger]
                    c@.pages.contains_key(a) ==> c@.pages[a].writable == self@.pages[a].writable
                        && c@.pages[a].executable == self@.pages[a].executable,
                forall|a: int| #[trigger]
                    c@.mem.contains_key(a) <==> c@.pages.contains_key(page_of(a)),
                forall|a: int| #[trigger]
                    c@.mem.contains_key(a) ==> c@.mem[a] == self@.mem[a],
                exclusive(self@, free) ==> exclusive(c@, fa@),
                exclusive(self@, free) ==> forall|a: int, b: int| #[trigger]
                    c@.pages.contains_key(a) && #[trigger] self@.pages.contains_key(b)
                        ==> c@.pages[a].frame != self@.pages[b].frame,
            decreases n - i,
        {
            let va: u64 = list[i].0;
            assert(self@.pages.contains_key(va as int));
            assert(self.pages@.contains_key(va));
            let bytes: Vec<u8> = match self.pages.get(&va) {
                Some(p) => crate::bytes::sub(p.bytes.as_slice(), 0, p.bytes.len()),
                None => crate::bytes::zeroed(4096),
            };
            assert(bytes@ =~= self.pages@[va].bytes@);
            let ghost c0 = c@;
            let ghost f0 = fa@;
            if !c.map_fresh(fa, va, bytes, list[i].2, list[i].3) {
                return None;
            }
            proof {
                reveal(exclusive);
                assert(page_of(va as int) == va);
                assert(f0.last() == free[free.len() - (i + 1)]);
                assert(fa@ =~= free.take(free.len() - (i + 1)));
                assert forall|a: int| #[trigger] c@.pages.contains_key(a) <==> exists|j: int|
                    0 <= j < i + 1 && (#[trigger] list@[j]).0 == a by {
                    if c@.pages.contains_key(a) {
                        if a == va {
                            assert(list@[i as int].0 == a);
                        } else {
                            assert(c0.pages.contains_key(a));
                        }
                    }
                    if exists|j: int| 0 <= j < i + 1 && (#[trigger] list@[j]).0 == a {
                        let j = choose|j: int| 0 <= j < i + 1 && (#[trigger] list@[j]).0 == a;
                        if j < i {
                            assert(c0.pages.contains_key(a));
                        }
                    }
                }
                assert forall|a: int| #[trigger] c@.mem.contains_key(a) <==> c@.pages.contains_key(
                    page_of(a),
                ) by {
                    assert(c0.mem.contains_key(a) <==> c0.pages.contains_key(page_of(a)));
                }
                assert forall|a: int| #[trigger] c@.mem.contains_key(a) implies c@.mem[a]
                    == self@.mem[a] by {
                    if va <= a < va + 4096 {
                        assert(page_of(a) == va);
                        assert(a % 4096 == a - va);
                    } else {
                        assert(c0.mem.contains_key(a));
                    }
                }
            }
            i = i + 1;
        }
        proof {
            assert forall|a: int| #[trigger] c@.pages.contains_key(a) <==> (a < USER_END
                && self@.pages.contains_key(a)) by {
                if a < USER_END && self@.pages.contains_key(a) {
                    assert(0 <= a);
                }
            }
            assert(c@.mem =~= user_half(self@.mem)) by {
                assert forall|a: int| c@.mem.contains_key(a) == user_half(self@.mem).contains_key(
                    a,
                ) by {
                    assert(c@.mem.contains_key(a) <==> c@.pages.contains_key(page_of(a)));
                    if self@.mem.contains_key(a) {
                        assert(self@.pages.contains_key(page_of(a)));
                    }
                    if self@.pages.contains_key(page_of(a)) {
                        assert(self.pages@.contains_key(page_of(a) as u64));
                        assert(page_of(a) % 4096 == 0);
                    }
                }
            }
            if exclusive(self@, free) {
                assert(fa@ =~= free.take(free.len() - n));
                lemma_exclusive_take(self@, free, free.len() - n);
            }
        }
        Some(c)
    }

    proof fn lemma_page_count(self, list: Seq<(u64, u64, bool, bool)>)
        requires
            forall|i: int|
                0 <= i < list.len() ==> (#[trigger] list[i]).0 < USER_END
                    && self@.pages.contains_key(list[i].0 as int),
            forall|i: int, j: int| 0 <= i < j < list.len() ==> list[i].0 != list[j].0,
            forall|a: int|
                0 <= a < USER_END && #[trigger] self@.pages.contains_key(a) ==> exists|i: int|
                    0 <= i < list.len() && (#[trigger] list[i]).0 == a,
        ensures
            list.len() == user_page_set(self@).len(),
    {
        let ks = list.map_values(|x: (u64, u64, bool, bool)| x.0 as int);
        assert(ks.no_duplicates());
        ks.unique_seq_to_set();
        assert(ks.to_set() =~= user_page_set(self@)) by {
            assert forall|k: int| ks.to_set().contains(k) == user_page_set(self@).contains(k) by {
                if ks.to_set().contains(k) {
                    let i = choose|i: int| 0 <= i < ks.len() && ks[i] == k;
                    assert(list[i].0 == k);
                }
                if user_page_set(self@).contains(k) {
                    let i = choose|i: int| 0 <= i < list.len() && (#[trigger] list[i]).0 == k;
                    assert(ks[i] == k);
                }
            }
        }
    }
}

/// The pages of the user half.
pub open spec fn user_page_set(s: Space) -> Set<int> {
    s.pages.dom().filter(|a: int| 0 <= a < USER_END)
}

/// `c` is a copy of the user half of `s`: the same bytes under the same
/// rights and cursors, each page on a frame of its own off the top of `free`,
/// of which `left` is what remains.
pub open spec fn copied(s: Space, free: Seq<u64>, c: Space, left: Seq<u64>) -> bool {
    let n = user_page_set(s).len();
    &&& n <= free.len()
    &&& left == free.take(free.len() - n)
    &&& c.next_va == s.next_va
    &&& c.brk == s.brk
    &&& c.mem == user_half(s.mem)
    &&& forall|a: int| #[trigger]
        c.pages.contains_key(a) <==> (a < USER_END && s.pages.contains_key(a))
    &&& forall|a: int| #[trigger]
        c.pages.contains_key(a) ==> c.pages[a].writable == s.pages[a].writable
            && c.pages[a].executable == s.pages[a].executable
    &&& exclusive(s, free) ==> exclusive(c, left) && exclusive(s, left) && forall|a: int, b: int|
        #[trigger]
        c.pages.contains_key(a) && #[trigger] s.pages.contains_key(b) ==> c.pages[a].frame
            != s.pages[b].frame
}

/// The part of a memory below the end of the user half.
pub open spec fn user_half(m: Map<int, u8>) -> Map<int, u8> {
    m.restrict(Set::new(|a: int| a < USER_END))
}

proof fn lemma_exclusive_take(s: Space, free: Seq<u64>, n: int)
    requires
        exclusive(s, free),
        0 <= n <= free.len(),
    ensures
        exclusive(s, free.take(n)),
{
    reveal(exclusive);
    let t = free.take(n);
    assert forall|a: int, i: int|
        #![trigger s.pages[a], t[i]]
        s.pages.contains_key(a) && 0 <= i < t.len() implies s.pages[a].frame != mm::down(
        t[i] as int,
        4096,
    ) by {
        assert(t[i] == free[i]);
    }
    assert forall|i: int, j: int|
        #![trigger t[i], t[j]]
        0 <= i < j < t.len() implies mm::down(t[i] as int, 4096) != mm::down(t[j] as int, 4096) by {
        assert(t[i] == free[i] && t[j] == free[j]);
    }
}

/// One past the last user address.
pub const USER_END: u64 = 0x0000_8000_0000_0000;

/// `a` rounded up to a page boundary.
pub open spec fn page_up(a: int) -> int {
    crate::mm::up(a, 4096)
}

/// How many pages a break moving from `cur` to `req` has to add.
pub open spec fn brk_pages(cur: int, req: int) -> nat {
    if page_up(req) > page_up(cur) {
        ((page_up(req) - page_up(cur)) / 4096) as nat
    } else {
        0
    }
}

proof fn lemma_mem_range(p: Process, a: int)
    requires
        p@.mem.contains_key(a),
    ensures
        0 <= a <= u64::MAX,
{
}

proof fn lemma_exclusive_map(s: Space, free: Seq<u64>, t: Space, at: int, info: PageInfo)
    requires
        exclusive(s, free),
        free.len() > 0,
        info.frame == mm::down(free.last() as int, 4096),
        t.pages == s.pages.insert(at, info),
    ensures
        exclusive(t, free.drop_last()),
{
    reveal(exclusive);
    let rest = free.drop_last();
    assert(free.last() == free[free.len() - 1]);
    assert forall|a: int, b: int|
        #![trigger t.pages[a], t.pages[b]]
        t.pages.contains_key(a) && t.pages.contains_key(b) && a != b implies t.pages[a].frame
        != t.pages[b].frame by {
        let l = free[free.len() - 1];
        if a != at {
            assert(t.pages[a] == s.pages[a]);
        }
        if b != at {
            assert(t.pages[b] == s.pages[b]);
        }
    }
    assert forall|a: int, i: int|
        #![trigger t.pages[a], rest[i]]
        t.pages.contains_key(a) && 0 <= i < rest.len() implies t.pages[a].frame != mm::down(
        rest[i] as int,
        4096,
    ) by {
        assert(rest[i] == free[i]);
        let l = free[free.len() - 1];
        if a != at {
            assert(t.pages[a] == s.pages[a]);
        }
    }
    assert forall|i: int, j: int|
        #![trigger rest[i], rest[j]]
        0 <= i < j < rest.len() implies mm::down(rest[i] as int, 4096) != mm::down(
        rest[j] as int,
        4096,
    ) by {
        assert(rest[i] == free[i] && rest[j] == free[j]);
    }
}

/// How a run of pages was mapped, or why it could not be.
#[derive(Clone, Copy, PartialEq, Eq, Structural)]
pub enum RunStatus {
    Mapped,
    /// No physical frame was left.
    NoFrame,
    /// The bytes to copy lie past the end of the image.
    NoData,
}

/// How many pages `[vaddr, vaddr + memsz)` touches, counting the page of an
/// unaligned empty range.
pub open spec fn run_count(vaddr: int, memsz: int) -> nat {
    ((page_up(vaddr + memsz) - page_of(vaddr)) / 4096) as nat
}

/// The `k`-th page of a run whose first `filesz` bytes come from `image` at
/// `off`, and whose rest is zero.
pub open spec fn run_page(image: Seq<u8>, off: int, vaddr: int, filesz: int, k: int) -> Seq<u8> {
    let page = page_of(vaddr) + k * 4096;
    Seq::new(
        4096,
        |i: int|
            if vaddr <= page + i < vaddr + filesz {
                image[off + (page + i - vaddr)]
            } else {
                0u8
            },
    )
}

/// The bytes that the `k`-th page of a run copies lie inside the image.
pub open spec fn run_ok(len: int, off: int, vaddr: int, filesz: int, k: int) -> bool {
    let page = page_of(vaddr) + k * 4096;
    let lo = if page > vaddr {
        page
    } else {
        vaddr
    };
    let hi = if page + 4096 < vaddr + filesz {
        page + 4096
    } else {
        vaddr + filesz
    };
    hi > lo ==> off + (hi - vaddr) <= len
}

/// The space after the first `n` pages of a run were mapped, writable, on
/// frames from the top of `free`.
pub open spec fn with_run(
    s: Space,
    free: Seq<u64>,
    image: Seq<u8>,
    off: int,
    vaddr: int,
    filesz: int,
    executable: bool,
    n: nat,
) -> Space
    decreases n,
{
    if n == 0 {
        s
    } else {
        let t = with_run(s, free, image, off, vaddr, filesz, executable, (n - 1) as nat);
        let at = page_of(vaddr) + (n - 1) * 4096;
        Space {
            mem: with_page(t.mem, at, run_page(image, off, vaddr, filesz, n - 1)),
            pages: t.pages.insert(
                at,
                PageInfo {
                    frame: mm::down(free[free.len() - n] as int, 4096) as u64,
                    writable: true,
                    executable,
                },
            ),
            ..t
        }
    }
}

impl Process {
    /// Map `[vaddr, vaddr + memsz)` as fresh writable pages, the front
    /// `filesz` bytes from `image` at `off`, the rest zero.
    #[verifier::rlimit(50)]
    #[verifier::spinoff_prover]
    pub fn map_run(
        &mut self,
        fa: &mut FrameAllocator,
        image: &[u8],
        off: u64,
        vaddr: u64,
        filesz: u64,
        memsz: u64,
        executable: bool,
    ) -> (r: RunStatus)
        requires
            old(self).wf(),
            vaddr + memsz + 4096 <= u64::MAX,
        ensures
            final(self).wf(),
            final(self).pml4() == old(self).pml4(),
            exclusive(old(self)@, old(fa)@) ==> exclusive(final(self)@, final(fa)@),
            ({
                let n = run_count(vaddr as int, memsz as int);
                let free = old(fa)@;
                let ok = |k: int|
                    run_ok(image@.len() as int, off as int, vaddr as int, filesz as int, k);
                &&& r == RunStatus::Mapped <==> n <= free.len() && forall|k: int|
                    0 <= k < n ==> #[trigger] ok(k)
                &&& r == RunStatus::NoFrame <==> n > free.len() && forall|k: int|
                    0 <= k < free.len() ==> #[trigger] ok(k)
                &&& r == RunStatus::Mapped ==> final(self)@ == with_run(
                    old(self)@,
                    free,
                    image@,
                    off as int,
                    vaddr as int,
                    filesz as int,
                    executable,
                    n,
                ) && final(fa)@ == free.take(free.len() - n)
            }),
    {
        let ghost free = fa@;
        let ghost ok = |k: int|
            run_ok(image@.len() as int, off as int, vaddr as int, filesz as int, k);
        let vend: u64 = vaddr + memsz;
        let size: usize = image.len();
        let len: u64 = size as u64;
        let fend: u64 = if filesz > u64::MAX - vaddr {
            u64::MAX
        } else {
            vaddr + filesz
        };
        let first: u64 = vaddr - vaddr % PAGE_SIZE;
        let ghost n = run_count(vaddr as int, memsz as int);
        let mut page: u64 = first;
        let ghost mut k: nat = 0;
        assert(free.take(free.len() as int) =~= free);
        while page < vend
            invariant
                self.wf(),
                self.pml4() == old(self).pml4(),
                free == old(fa)@,
                vend == vaddr + memsz,
                vend + 4096 <= u64::MAX,
                size == image@.len(),
                len == size,
                first == page_of(vaddr as int),
                fend == (if filesz > u64::MAX - vaddr {
                    u64::MAX as int
                } else {
                    vaddr + filesz
                }),
                n == run_count(vaddr as int, memsz as int),
                page == first + k * 4096,
                page < vend ==> k < n,
                page >= vend ==> k == n,
                k <= free.len(),
                k <= n,
                ok == (|q: int|
                    run_ok(image@.len() as int, off as int, vaddr as int, filesz as int, q)),
                forall|q: int| 0 <= q < k ==> #[trigger] ok(q),
                fa@ == free.take(free.len() - k),
                self@ == with_run(
                    old(self)@,
                    free,
                    image@,
                    off as int,
                    vaddr as int,
                    filesz as int,
                    executable,
                    k,
                ),
                exclusive(old(self)@, free) ==> exclusive(self@, fa@),
            decreases vend + 4096 - page,
        {
            if fa.free_frames() == 0 {
                assert(k == free.len());
                return RunStatus::NoFrame;
            }
            let lo: u64 = if page > vaddr {
                page
            } else {
                vaddr
            };
            let hi: u64 = if page + PAGE_SIZE < fend {
                page + PAGE_SIZE
            } else {
                fend
            };
            let mut bytes = crate::bytes::zeroed(4096);
            if hi > lo {
                if off > len || hi - vaddr > len - off {
                    assert(!ok(k as int));
                    return RunStatus::NoData;
                }
                let src: usize = (off + (lo - vaddr)) as usize;
                let chunk = crate::bytes::sub(image, src, src + (hi - lo) as usize);
                crate::bytes::put(&mut bytes, (lo - page) as usize, chunk.as_slice());
            }
            assert(ok(k as int));
            assert(bytes@ =~= run_page(image@, off as int, vaddr as int, filesz as int, k as int));
            let ghost f0 = fa@;
            assert(page_of(page as int) == page);
            let done = self.map_fresh(fa, page, bytes, true, executable);
            assert(done);
            proof {
                assert(f0.last() == free[free.len() - (k + 1)]);
                assert(fa@ =~= free.take(free.len() - (k + 1)));
                k = k + 1;
            }
            page = page + PAGE_SIZE;
        }
        RunStatus::Mapped
    }
}

/// The UTF-8 forms of the strings in `v`.
pub open spec fn utf8_of(v: Seq<&str>) -> Seq<Seq<u8>> {
    v.map_values(|s: &str| vstd::utf8::encode_utf8(s@))
}

/// Bytes that the strings take with a NUL behind each.
pub open spec fn cost(ss: Seq<Seq<u8>>) -> int
    decreases ss.len(),
{
    if ss.len() == 0 {
        0
    } else {
        cost(ss.drop_last()) + ss.last().len() + 1
    }
}

/// The memory after the strings were pushed below `top`, first one first,
/// each with a NUL behind it.
pub open spec fn push_strings(m: Map<int, u8>, top: int, ss: Seq<Seq<u8>>) -> Map<int, u8>
    decreases ss.len(),
{
    if ss.len() == 0 {
        m
    } else {
        poke(push_strings(m, top, ss.drop_last()), top - cost(ss), ss.last().push(0))
    }
}

/// Where each of the strings pushed below `top` starts.
pub open spec fn string_ptrs(top: int, ss: Seq<Seq<u8>>) -> Seq<u64> {
    Seq::new(ss.len(), |i: int| (top - cost(ss.take(i + 1))) as u64)
}

/// Eight bytes for each word, in order.
pub open spec fn word_bytes(ws: Seq<u64>) -> Seq<u8>
    decreases ws.len(),
{
    if ws.len() == 0 {
        Seq::empty()
    } else {
        word_bytes(ws.drop_last()) + crate::bytes::bytes64(ws.last())
    }
}

/// The words of the entry stack from `rsp` up: argc, argv, a null, envp, a
/// null, and the auxiliary vector.
pub open spec fn entry_words(
    top: int,
    argv: Seq<Seq<u8>>,
    envp: Seq<Seq<u8>>,
    img: crate::elf::Image,
) -> Seq<u64> {
    let low = top - 16;
    let args = string_ptrs(low, argv);
    let execfn = if args.len() > 0 {
        args[0]
    } else {
        0
    };
    seq![argv.len() as u64] + args + seq![0u64] + string_ptrs(low - cost(argv), envp) + seq![0u64]
        + seq![
        3u64, img.phdr, 4u64, img.phent, 5u64, img.phnum, 6u64, 4096u64, 9u64, img.entry, 25u64,
        low as u64, 31u64, execfn, 0u64, 0u64]
}

/// The stack pointer at the program's first instruction: room for the words,
/// rounded down to 16.
pub open spec fn entry_rsp(top: int, argv: Seq<Seq<u8>>, envp: Seq<Seq<u8>>) -> int {
    mm::down(top - 16 - cost(argv) - cost(envp) - 8 * (19 + argv.len() + envp.len()), 16)
}

/// The memory with the whole entry stack laid out below `top`.
pub open spec fn entry_stack(
    m: Map<int, u8>,
    top: int,
    argv: Seq<Seq<u8>>,
    envp: Seq<Seq<u8>>,
    img: crate::elf::Image,
) -> Map<int, u8> {
    let low = top - 16;
    let m0 = poke(m, low, Seq::new(16, |i: int| 0x5Au8));
    let m1 = push_strings(m0, low, argv);
    let m2 = push_strings(m1, low - cost(argv), envp);
    poke(m2, entry_rsp(top, argv, envp), word_bytes(entry_words(top, argv, envp, img)))
}

pub proof fn lemma_cost_mono(ss: Seq<Seq<u8>>, i: int)
    requires
        0 <= i <= ss.len(),
    ensures
        i <= cost(ss.take(i)) <= cost(ss),
    decreases ss.len(),
{
    if ss.len() == 0 {
    } else if i == ss.len() {
        assert(ss.take(i) =~= ss);
        lemma_cost_mono(ss.drop_last(), i - 1);
        assert(ss.drop_last().take(i - 1) =~= ss.drop_last());
    } else {
        lemma_cost_mono(ss.drop_last(), i);
        assert(ss.drop_last().take(i) =~= ss.take(i));
    }
}

proof fn lemma_push_strings_dom(m: Map<int, u8>, top: int, ss: Seq<Seq<u8>>)
    ensures
        push_strings(m, top, ss).dom() == m.dom(),
    decreases ss.len(),
{
    if ss.len() > 0 {
        lemma_push_strings_dom(m, top, ss.drop_last());
    }
    assert(push_strings(m, top, ss).dom() =~= m.dom());
}

pub proof fn lemma_cost_first(ss: Seq<Seq<u8>>)
    requires
        ss.len() > 0,
    ensures
        cost(ss) == ss[0].len() + 1 + cost(ss.skip(1)),
        cost(ss.skip(1)) >= 0,
    decreases ss.len(),
{
    lemma_cost_mono(ss.skip(1), 0);
    if ss.len() > 1 {
        lemma_cost_first(ss.drop_last());
        assert(ss.drop_last().skip(1) =~= ss.skip(1).drop_last());
        assert(ss.skip(1).last() == ss.last());
    } else {
        assert(ss.drop_last() =~= Seq::<Seq<u8>>::empty());
        assert(ss.skip(1) =~= Seq::<Seq<u8>>::empty());
    }
}

/// The bytes that the strings take with a NUL behind each, or nothing when
/// they need more than `room`.
pub fn measure(v: &[&str], room: u64) -> (r: Option<u64>)
    ensures
        r is Some <==> cost(utf8_of(v@)) <= room,
        r is Some ==> r->0 == cost(utf8_of(v@)),
{
    let n: usize = v.len();
    let ghost ss = utf8_of(v@);
    let mut total: u64 = 0;
    let mut i: usize = 0;
    while i < n
        invariant
            i <= n,
            n == v@.len(),
            ss == utf8_of(v@),
            total == cost(ss.take(i as int)),
            total <= room,
        decreases n - i,
    {
        let len: u64 = v[i].as_bytes().len() as u64;
        proof {
            assert(ss.take(i + 1).drop_last() =~= ss.take(i as int));
            assert(ss.take(i + 1).last() == ss[i as int]);
            lemma_cost_mono(ss, i + 1);
        }
        if len >= room - total {
            return None;
        }
        total = total + len + 1;
        i = i + 1;
    }
    assert(ss.take(n as int) =~= ss);
    Some(total)
}

/// The words as bytes.
fn words_to_bytes(ws: &[u64]) -> (r: Vec<u8>)
    ensures
        r@ == word_bytes(ws@),
        r@.len() == 8 * ws@.len(),
{
    let n: usize = ws.len();
    let mut r: Vec<u8> = Vec::new();
    let mut i: usize = 0;
    while i < n
        invariant
            i <= n,
            n == ws@.len(),
            r@ == word_bytes(ws@.take(i as int)),
            r@.len() == 8 * i,
        decreases n - i,
    {
        let b = crate::bytes::to_bytes64(ws[i]);
        assert(ws@.take(i + 1).drop_last() =~= ws@.take(i as int));
        assert(ws@.take(i + 1).last() == ws@[i as int]);
        crate::bytes::extend(&mut r, b.as_slice());
        i = i + 1;
    }
    assert(ws@.take(n as int) =~= ws@);
    r
}

impl Process {
    /// Push the strings below `top`; the whole range is known to be mapped.
    fn push_all(&mut self, top: u64, v: &[&str]) -> (ptrs: Vec<u64>)
        requires
            old(self).wf(),
            cost(utf8_of(v@)) <= top,
            mapped(old(self)@.mem, top - cost(utf8_of(v@)), cost(utf8_of(v@))),
        ensures
            final(self).wf(),
            final(self).pml4() == old(self).pml4(),
            final(self)@ == (Space {
                mem: push_strings(old(self)@.mem, top as int, utf8_of(v@)),
                ..old(self)@
            }),
            ptrs@ == string_ptrs(top as int, utf8_of(v@)),
    {
        let n: usize = v.len();
        let ghost ss = utf8_of(v@);
        let mut ptrs: Vec<u64> = Vec::new();
        let mut cur: u64 = top;
        let mut i: usize = 0;
        assert(ss.take(0) =~= Seq::<Seq<u8>>::empty());
        while i < n
            invariant
                i <= n,
                n == v@.len(),
                ss == utf8_of(v@),
                cost(ss) <= top,
                mapped(old(self)@.mem, top - cost(ss), cost(ss)),
                self.wf(),
                self.pml4() == old(self).pml4(),
                cur == top - cost(ss.take(i as int)),
                self@ == (Space {
                    mem: push_strings(old(self)@.mem, top as int, ss.take(i as int)),
                    ..old(self)@
                }),
                ptrs@ == string_ptrs(top as int, ss).take(i as int),
            decreases n - i,
        {
            let src = v[i].as_bytes();
            let mut b: Vec<u8> = crate::bytes::sub(src, 0, src.len());
            assert(b@ =~= ss[i as int]);
            b.push(0);
            proof {
                assert(ss.take(i + 1).drop_last() =~= ss.take(i as int));
                assert(ss.take(i + 1).last() == ss[i as int]);
                lemma_cost_mono(ss, i as int);
                lemma_cost_mono(ss, i + 1);
                lemma_push_strings_dom(old(self)@.mem, top as int, ss.take(i as int));
            }
            let len: u64 = b.len() as u64;
            cur = cur - len;
            assert forall|a: int| cur <= a < cur + b@.len() implies #[trigger] self@.mem.contains_key(
                a,
            ) by {
                assert(old(self)@.mem.contains_key(a));
                assert(old(self)@.mem.dom().contains(a));
            }
            self.write_user(cur, b.as_slice());
            ptrs.push(cur);
            i = i + 1;
            assert(ptrs@ =~= string_ptrs(top as int, ss).take(i as int));
        }
        assert(ss.take(n as int) =~= ss);
        assert(ptrs@ =~= string_ptrs(top as int, ss));
        ptrs
    }

    /// Lay out the SysV AMD64 entry stack (argc, argv, envp, auxv, random
    /// bytes) below `stack_top` and return the entry `rsp`. Nothing, and
    /// nothing written, when part of it would fall on unmapped memory.
    #[verifier::rlimit(50)]
    #[verifier::spinoff_prover]
    pub fn init_stack(
        &mut self,
        stack_top: u64,
        argv: &[&str],
        envp: &[&str],
        img: &crate::elf::Image,
    ) -> (r: Option<u64>)
        requires
            old(self).wf(),
        ensures
            final(self).wf(),
            final(self).pml4() == old(self).pml4(),
            ({
                let rsp = entry_rsp(stack_top as int, utf8_of(argv@), utf8_of(envp@));
                if mapped(old(self)@.mem, rsp, stack_top - rsp) {
                    &&& r == Some(rsp as u64)
                    &&& rsp % 16 == 0
                    &&& final(self)@ == (Space {
                        mem: entry_stack(
                            old(self)@.mem,
                            stack_top as int,
                            utf8_of(argv@),
                            utf8_of(envp@),
                            *img,
                        ),
                        ..old(self)@
                    })
                } else {
                    r is None && final(self)@ == old(self)@
                }
            }),
    {
        let ghost av = utf8_of(argv@);
        let ghost ev = utf8_of(envp@);
        let ghost rsp = entry_rsp(stack_top as int, av, ev);
        proof {
            lemma_cost_mono(av, av.len() as int);
            lemma_cost_mono(ev, ev.len() as int);
            assert(av.take(av.len() as int) =~= av);
            assert(ev.take(ev.len() as int) =~= ev);
            if rsp < 0 {
                assert(!self@.mem.contains_key(-1int)) by {
                    if self@.mem.contains_key(-1int) {
                        lemma_mem_range(*self, -1);
                    }
                }
            }
        }
        if stack_top < 16 {
            return None;
        }
        let low: u64 = stack_top - 16;
        let a: u64 = match measure(argv, low) {
            Some(x) => x,
            None => { return None; },
        };
        let e: u64 = match measure(envp, low - a) {
            Some(x) => x,
            None => { return None; },
        };
        let floor: u64 = low - a - e;
        let nwords: u64 = argv.len() as u64;
        let nenv: u64 = envp.len() as u64;
        if floor / 8 < 19 || floor / 8 - 19 < nwords || floor / 8 - 19 - nwords < nenv {
            return None;
        }
        let block: u64 = 8 * (19 + nwords + nenv);
        let at: u64 = (floor - block) - (floor - block) % 16;
        assert(at == rsp);
        if !self.is_mapped(at, stack_top - at) {
            return None;
        }
        assert(mapped(self@.mem, rsp, stack_top - rsp));
        let seed: Vec<u8> = vec![0x5Au8; 16];
        assert(seed@ =~= Seq::new(16, |i: int| 0x5Au8));
        self.write_user(low, seed.as_slice());
        let ghost m0 = self@.mem;
        assert forall|x: int| rsp <= x < stack_top implies #[trigger] m0.contains_key(x) by {
            assert(old(self)@.mem.contains_key(x));
        }
        let args = self.push_all(low, argv);
        let ghost m1 = self@.mem;
        proof {
            lemma_push_strings_dom(m0, low as int, av);
        }
        assert forall|x: int| rsp <= x < stack_top implies #[trigger] m1.contains_key(x) by {
            assert(m0.contains_key(x));
            assert(m0.dom().contains(x));
        }
        let envs = self.push_all(low - a, envp);
        let ghost m2 = self@.mem;
        proof {
            lemma_push_strings_dom(m1, low - a, ev);
        }
        assert forall|x: int| rsp <= x < stack_top implies #[trigger] m2.contains_key(x) by {
            assert(m1.contains_key(x));
            assert(m1.dom().contains(x));
        }
        let execfn: u64 = if args.len() > 0 {
            args[0]
        } else {
            0
        };
        let mut ws: Vec<u64> = Vec::new();
        ws.push(nwords);
        append_words(&mut ws, args.as_slice());
        ws.push(0);
        append_words(&mut ws, envs.as_slice());
        ws.push(0);
        let aux: Vec<u64> = vec![
            3u64, img.phdr, 4u64, img.phent, 5u64, img.phnum, 6u64, 4096u64, 9u64, img.entry, 25u64,
            low, 31u64, execfn, 0u64, 0u64];
        append_words(&mut ws, aux.as_slice());
        assert(ws@ =~= entry_words(stack_top as int, av, ev, *img));
        let b = words_to_bytes(ws.as_slice());
        assert(b@.len() == block);
        self.write_user(at, b.as_slice());
        Some(at)
    }
}

fn append_words(ws: &mut Vec<u64>, more: &[u64])
    ensures
        final(ws)@ == old(ws)@ + more@,
{
    ws.extend_from_slice(more);
    assert(ws@ =~= old(ws)@ + more@);
}

// --- words in user memory ---

/// The 16-bit word at `a`, if it is mapped.
pub open spec fn word16(m: Map<int, u8>, a: int) -> Option<u16> {
    if mapped(m, a, 2) {
        Some(crate::bytes::le16(peek(m, a, 2), 0))
    } else {
        None
    }
}

/// The 32-bit word at `a`, if it is mapped.
pub open spec fn word32(m: Map<int, u8>, a: int) -> Option<u32> {
    if mapped(m, a, 4) {
        Some(crate::bytes::le32(peek(m, a, 4), 0))
    } else {
        None
    }
}

/// The 64-bit word at `a`, if it is mapped.
pub open spec fn word64(m: Map<int, u8>, a: int) -> Option<u64> {
    if mapped(m, a, 8) {
        Some(crate::bytes::le64(peek(m, a, 8), 0))
    } else {
        None
    }
}

/// The space after `b` was stored at `a`, if all of that is mapped.
pub open spec fn stored(s: Space, a: int, b: Seq<u8>) -> Option<Space> {
    if mapped(s.mem, a, b.len() as int) {
        Some(Space { mem: poke(s.mem, a, b), ..s })
    } else {
        None
    }
}

impl Process {
    /// No byte lies past the last address.
    pub proof fn lemma_bounded(self, a: int)
        requires
            a > u64::MAX || a < 0,
        ensures
            !self@.mem.contains_key(a),
    {
    }

    /// The `n` bytes at `base + off`, if they are mapped.
    pub fn read_at(&self, base: u64, off: u64, n: usize) -> (r: Option<Vec<u8>>)
        requires
            self.wf(),
            n > 0,
        ensures
            r is Some <==> mapped(self@.mem, base + off, n as int),
            r is Some ==> r->0@ == peek(self@.mem, base + off, n as nat),
    {
        if off > u64::MAX - base {
            proof {
                self.lemma_bounded(base + off);
            }
            return None;
        }
        self.read(base + off, n)
    }

    pub fn word16_at(&self, base: u64, off: u64) -> (r: Option<u16>)
        requires
            self.wf(),
        ensures
            r == word16(self@.mem, base + off),
    {
        match self.read_at(base, off, 2) {
            Some(b) => Some(crate::bytes::load16(b.as_slice(), 0)),
            None => None,
        }
    }

    pub fn word32_at(&self, base: u64, off: u64) -> (r: Option<u32>)
        requires
            self.wf(),
        ensures
            r == word32(self@.mem, base + off),
    {
        match self.read_at(base, off, 4) {
            Some(b) => Some(crate::bytes::load32(b.as_slice(), 0)),
            None => None,
        }
    }

    pub fn word64_at(&self, base: u64, off: u64) -> (r: Option<u64>)
        requires
            self.wf(),
        ensures
            r == word64(self@.mem, base + off),
    {
        match self.read_at(base, off, 8) {
            Some(b) => Some(crate::bytes::load64(b.as_slice(), 0)),
            None => None,
        }
    }

    /// Store bytes at `base + off`, if that is mapped.
    pub fn store_at(&mut self, base: u64, off: u64, b: &[u8]) -> (ok: bool)
        requires
            old(self).wf(),
            b@.len() > 0,
        ensures
            final(self).wf(),
            final(self).pml4() == old(self).pml4(),
            match stored(old(self)@, base + off, b@) {
                Some(s) => ok && final(self)@ == s,
                None => !ok && final(self)@ == old(self)@,
            },
    {
        if off > u64::MAX - base {
            proof {
                self.lemma_bounded(base + off);
            }
            return false;
        }
        self.store(base + off, b)
    }
}

/// What was stored is what is read, and every other byte stays.
pub proof fn law_stored_bytes_read_back(m: Map<int, u8>, a: int, b: Seq<u8>)
    requires
        mapped(m, a, b.len() as int),
    ensures
        mapped(poke(m, a, b), a, b.len() as int),
        peek(poke(m, a, b), a, b.len()) == b,
        poke(m, a, b).dom() == m.dom(),
        forall|i: int|
            m.contains_key(i) && !(a <= i < a + b.len()) ==> #[trigger] poke(m, a, b)[i] == m[i],
{
    assert forall|i: int| a <= i < a + b.len() implies #[trigger] poke(m, a, b).contains_key(i) by {
        assert(m.contains_key(i));
    }
    assert(peek(poke(m, a, b), a, b.len()) =~= b);
    assert(poke(m, a, b).dom() =~= m.dom());
}

/// Fresh pages read as zeros, and nothing else changes.
pub proof fn law_fresh_pages_are_zero(s: Space, free: Seq<u64>, va: int, n: nat)
    ensures
        forall|i: int|
            va <= i < va + n * 4096 ==> #[trigger] with_zero_pages(s, free, va, n).mem.contains_key(
                i,
            ) && with_zero_pages(s, free, va, n).mem[i] == 0,
        forall|i: int|
            !(va <= i < va + n * 4096) ==> (#[trigger] with_zero_pages(
                s,
                free,
                va,
                n,
            ).mem.contains_key(i) == s.mem.contains_key(i)) && (s.mem.contains_key(i)
                ==> with_zero_pages(s, free, va, n).mem[i] == s.mem[i]),
    decreases n,
{
    if n > 0 {
        law_fresh_pages_are_zero(s, free, va, (n - 1) as nat);
        let t = with_zero_pages(s, free, va, (n - 1) as nat).mem;
        let at = va + (n - 1) * 4096;
        let u = with_page(t, at, crate::bytes::zeros(4096));
        assert(with_zero_pages(s, free, va, n).mem == u);
        assert forall|i: int| true implies #[trigger] u.contains_key(i) == (t.contains_key(i) || at
            <= i < at + 4096) by {}
        assert forall|i: int| u.contains_key(i) implies #[trigger] u[i] == if at <= i < at + 4096 {
            0u8
        } else {
            t[i]
        } by {}
    }
}

/// A space with `n` pages mapped at the cursor, which moves past them and past
/// one page more.
pub open spec fn with_mapping(s: Space, free: Seq<u64>, n: nat) -> Space {
    Space {
        next_va: (s.next_va + n * 4096 + 4096) as u64,
        ..with_zero_pages(s, free, s.next_va as int, n)
    }
}

/// An anonymous mapping of `len` bytes: the space, the frames left and the base;
/// nothing changes where frames or addresses run out.
pub open spec fn mapped_anon(s: Space, free: Seq<u64>, len: u64) -> (Space, Seq<u64>, Option<u64>) {
    let n = (page_up(len as int) / 4096) as nat;
    if n <= free.len() && s.next_va + n * 4096 + 4096 <= u64::MAX {
        (with_mapping(s, free, n), free.take(free.len() - n), Some(s.next_va))
    } else {
        (s, free, None)
    }
}

/// `t` was made of `s` by mapping pages: its page-table root is the same, and
/// the frames left are the bottom of what was free.
pub open spec fn stems(s: Space, free: Seq<u64>, t: Space, left: Seq<u64>) -> bool {
    &&& t.root == s.root
    &&& left.len() <= free.len()
    &&& forall|i: int| 0 <= i < left.len() ==> #[trigger] left[i] == free[i]
}

/// Mapping fresh zeroed pages leaves the page-table root alone.
pub proof fn lemma_zero_pages_root(s: Space, free: Seq<u64>, va: int, n: nat)
    ensures
        with_zero_pages(s, free, va, n).root == s.root,
    decreases n,
{
    if n > 0 {
        lemma_zero_pages_root(s, free, va, (n - 1) as nat);
    }
}

/// So does mapping a piece of an image.
pub proof fn lemma_run_root(
    s: Space,
    free: Seq<u64>,
    image: Seq<u8>,
    off: int,
    vaddr: int,
    filesz: int,
    executable: bool,
    n: nat,
)
    ensures
        with_run(s, free, image, off, vaddr, filesz, executable, n).root == s.root,
    decreases n,
{
    if n > 0 {
        lemma_run_root(s, free, image, off, vaddr, filesz, executable, (n - 1) as nat);
    }
}

/// The pages that `with_zero_pages` adds are those from `va` on, writable and
/// not executable; every other page is as it was.
proof fn lemma_zero_page_rights(s: Space, free: Seq<u64>, va: int, n: nat)
    ensures
        ({
            let t = with_zero_pages(s, free, va, n);
            &&& forall|k: int|
                0 <= k < n ==> t.pages.contains_key(#[trigger] (va + k * 4096)) && t.pages[va + k
                    * 4096].writable && !t.pages[va + k * 4096].executable
            &&& forall|a: int|
                !(va <= a < va + n * 4096) ==> (#[trigger] t.pages.contains_key(a)
                    == s.pages.contains_key(a)) && (s.pages.contains_key(a) ==> t.pages[a]
                    == s.pages[a])
            &&& t.next_va == s.next_va
        }),
    decreases n,
{
    if n > 0 {
        lemma_zero_page_rights(s, free, va, (n - 1) as nat);
    }
}

/// Two anonymous mappings of `n` and `m` pages one after the other do not
/// touch: the second begins one page behind the end of the first, and neither
/// maps that page. All their pages are writable, not executable, and zero.
pub proof fn law_mappings_keep_a_guard_page(s: Space, free: Seq<u64>, n: nat, m: nat)
    requires
        s.next_va + (n + m + 2) * 4096 <= u64::MAX,
    ensures
        ({
            let b1 = s.next_va as int;
            let once = with_mapping(s, free, n);
            let b2 = once.next_va as int;
            let twice = with_mapping(once, free.take(free.len() - n), m);
            let guard = b1 + n * 4096;
            &&& b2 == b1 + n * 4096 + 4096
            &&& forall|k: int|
                0 <= k < n ==> twice.pages.contains_key(#[trigger] (b1 + k * 4096))
                    && twice.pages[b1 + k * 4096].writable && !twice.pages[b1 + k * 4096].executable
            &&& forall|k: int|
                0 <= k < m ==> twice.pages.contains_key(#[trigger] (b2 + k * 4096))
                    && twice.pages[b2 + k * 4096].writable && !twice.pages[b2 + k * 4096].executable
            &&& forall|i: int|
                b1 <= i < b1 + n * 4096 || b2 <= i < b2 + m * 4096
                    ==> #[trigger] twice.mem.contains_key(i) && twice.mem[i] == 0
            &&& forall|i: int|
                guard <= i < guard + 4096 ==> #[trigger] twice.mem.contains_key(i)
                    == s.mem.contains_key(i)
            &&& twice.pages.contains_key(guard) == s.pages.contains_key(guard)
        }),
{
    let b1 = s.next_va as int;
    let once = with_mapping(s, free, n);
    let b2 = b1 + n * 4096 + 4096;
    let rest = free.take(free.len() - n);
    let twice = with_mapping(once, rest, m);
    assert(once.next_va == b2);
    lemma_zero_page_rights(s, free, b1, n);
    lemma_zero_page_rights(once, rest, b2, m);
    law_fresh_pages_are_zero(s, free, b1, n);
    law_fresh_pages_are_zero(once, rest, b2, m);
    let w1 = with_zero_pages(s, free, b1, n);
    let w2 = with_zero_pages(once, rest, b2, m);
    assert(once.mem == w1.mem && once.pages == w1.pages);
    assert(twice.mem == w2.mem && twice.pages == w2.pages);
    assert forall|k: int| 0 <= k < n implies twice.pages.contains_key(#[trigger] (b1 + k * 4096))
        && twice.pages[b1 + k * 4096].writable && !twice.pages[b1 + k * 4096].executable by {
        assert(w1.pages.contains_key(b1 + k * 4096));
        assert(w2.pages.contains_key(b1 + k * 4096) == once.pages.contains_key(b1 + k * 4096));
    }
    assert forall|i: int| b1 <= i < b1 + n * 4096 || b2 <= i < b2 + m * 4096 implies
        #[trigger] twice.mem.contains_key(i) && twice.mem[i] == 0 by {
        assert(w2.mem.contains_key(i));
        if b1 <= i < b1 + n * 4096 {
            assert(w1.mem.contains_key(i));
        }
    }
    assert forall|i: int| b1 + n * 4096 <= i < b2 implies #[trigger] twice.mem.contains_key(i)
        == s.mem.contains_key(i) by {
        assert(w2.mem.contains_key(i) == once.mem.contains_key(i));
        assert(w1.mem.contains_key(i) == s.mem.contains_key(i));
    }
    assert(w2.pages.contains_key(b1 + n * 4096) == once.pages.contains_key(b1 + n * 4096));
    assert(w1.pages.contains_key(b1 + n * 4096) == s.pages.contains_key(b1 + n * 4096));
}

/// The first anonymous mapping of a new process lies at the bottom of the
/// addresses that are handed out.
pub proof fn law_first_mapping_has_a_known_base(root: u64, free: Seq<u64>, len: u64)
    requires
        page_up(len as int) <= free.len() * 4096,
        USER_ALLOC_BASE + page_up(len as int) + 4096 <= u64::MAX,
    ensures
        mapped_anon(
            Space {
                root,
                mem: Map::empty(),
                pages: Map::empty(),
                next_va: USER_ALLOC_BASE,
                brk: BRK_BASE,
            },
            free,
            len,
        ).2 == Some(0x7000_0000_0000u64),
{
    let n = page_up(len as int) / 4096;
    assert(page_up(len as int) % 4096 == 0);
    assert(n * 4096 == page_up(len as int));
}

/// Of two anonymous mappings of `len1` and `len2` bytes one after the other, both
/// bases are page-aligned, and the second begins one page behind the end of the
/// first, rounded up to pages. Every page of both is writable, not executable and
/// zero, and the page between them stays as it was.
pub proof fn law_anonymous_mappings_stay_apart(s: Space, free: Seq<u64>, len1: u64, len2: u64)
    requires
        s.next_va % 4096 == 0,
        mapped_anon(s, free, len1).2 is Some,
        ({
            let (once, left, _) = mapped_anon(s, free, len1);
            mapped_anon(once, left, len2).2 is Some
        }),
    ensures
        ({
            let (once, left, base1) = mapped_anon(s, free, len1);
            let (twice, _, base2) = mapped_anon(once, left, len2);
            let b1 = base1->0 as int;
            let b2 = base2->0 as int;
            let e1 = b1 + page_up(len1 as int);
            let e2 = b2 + page_up(len2 as int);
            &&& b1 % 4096 == 0
            &&& b2 % 4096 == 0
            &&& b2 == e1 + 4096
            &&& forall|a: int|
                #![trigger twice.pages.contains_key(a)]
                (b1 <= a < e1 || b2 <= a < e2) && a % 4096 == 0 ==> twice.pages.contains_key(a)
                    && twice.pages[a].writable && !twice.pages[a].executable
            &&& forall|a: int|
                b1 <= a < e1 || b2 <= a < e2 ==> #[trigger] twice.mem.contains_key(a)
                    && twice.mem[a] == 0
            &&& forall|a: int|
                e1 <= a < b2 ==> #[trigger] twice.mem.contains_key(a) == s.mem.contains_key(a)
            &&& twice.pages.contains_key(e1) == s.pages.contains_key(e1)
        }),
{
    let n = (page_up(len1 as int) / 4096) as nat;
    let m = (page_up(len2 as int) / 4096) as nat;
    assert(n * 4096 == page_up(len1 as int));
    assert(m * 4096 == page_up(len2 as int));
    law_mappings_keep_a_guard_page(s, free, n, m);
    let (once, left, base1) = mapped_anon(s, free, len1);
    let (twice, _, base2) = mapped_anon(once, left, len2);
    let b1 = base1->0 as int;
    let b2 = base2->0 as int;
    let e1 = b1 + page_up(len1 as int);
    let e2 = b2 + page_up(len2 as int);
    assert forall|a: int|
        #![trigger twice.pages.contains_key(a)]
        (b1 <= a < e1 || b2 <= a < e2) && a % 4096 == 0 implies twice.pages.contains_key(a)
        && twice.pages[a].writable && !twice.pages[a].executable by {
        if b1 <= a < e1 {
            let k = (a - b1) / 4096;
            assert(a == b1 + k * 4096);
        } else {
            let k = (a - b2) / 4096;
            assert(a == b2 + k * 4096);
        }
    }
}

} // verus!
