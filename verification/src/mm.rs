//! Physical memory bring-up: the free list of 4 KiB frames, filled from the
//! firmware memory map.
use vstd::prelude::*;

verus! {

pub const FRAME_SIZE: u64 = 4096;

/// Size of the bootstrap heap arena.
pub const HEAP_SIZE: usize = 8388608;

/// One region of the firmware memory map.
#[derive(Clone, Copy)]
pub struct Entry {
    pub base: u64,
    pub length: u64,
    pub usable: bool,
}

/// What memory bring-up found.
pub struct MemStats {
    pub usable_bytes: u64,
    pub usable_frames: u64,
    pub largest_region_bytes: u64,
    pub heap_bytes: usize,
}

/// The higher-half direct map: `virt = phys + offset` for all physical RAM.
#[derive(Clone, Copy)]
pub struct Hhdm {
    pub offset: u64,
}

pub fn hhdm_offset(h: &Hhdm) -> (r: u64)
    ensures
        r == h.offset,
{
    h.offset
}

/// Translate a physical address into its direct-map virtual address.
pub fn phys_to_virt(h: &Hhdm, pa: u64) -> (r: u64)
    requires
        pa + h.offset <= u64::MAX,
    ensures
        r == pa + h.offset,
{
    pa + h.offset
}

/// The least multiple of `a` that is not below `v`.
pub open spec fn up(v: int, a: int) -> int {
    if v % a == 0 {
        v
    } else {
        v - v % a + a
    }
}

/// The greatest multiple of `a` that is not above `v`.
pub open spec fn down(v: int, a: int) -> int {
    v - v % a
}

pub fn align_up(v: u64, a: u64) -> (r: u64)
    requires
        a > 0,
        v + a - 1 <= u64::MAX,
    ensures
        r == up(v as int, a as int),
{
    let m: u64 = v % a;
    assert(v % a <= v && v % a < a) by (nonlinear_arith)
        requires
            a > 0,
    ;
    if m == 0 {
        v
    } else {
        v - m + a
    }
}

pub fn align_down(v: u64, a: u64) -> (r: u64)
    requires
        a > 0,
    ensures
        r == down(v as int, a as int),
{
    assert(v % a <= v) by (nonlinear_arith)
        requires
            a > 0,
    ;
    v - v % a
}

/// First and one-past-last frame address inside a region.
pub open spec fn frame_span(e: Entry) -> (int, int) {
    (up(e.base as int, 4096), down(e.base + e.length, 4096))
}

/// How many whole frames a region gives.
pub open spec fn frame_count(e: Entry) -> nat {
    let (lo, hi) = frame_span(e);
    if e.usable && hi > lo {
        ((hi - lo) / 4096) as nat
    } else {
        0
    }
}

/// The whole frames of a region, lowest first.
pub open spec fn frames_of(e: Entry) -> Seq<u64> {
    Seq::new(frame_count(e), |i: int| (frame_span(e).0 + i * 4096) as u64)
}

/// The whole frames of all regions, in map order.
pub open spec fn frames_in(es: Seq<Entry>) -> Seq<u64>
    decreases es.len(),
{
    if es.len() == 0 {
        Seq::empty()
    } else {
        frames_in(es.drop_last()) + frames_of(es.last())
    }
}

/// Total length of the usable regions.
pub open spec fn usable_len(es: Seq<Entry>) -> int
    decreases es.len(),
{
    if es.len() == 0 {
        0
    } else {
        usable_len(es.drop_last()) + if es.last().usable {
            es.last().length as int
        } else {
            0
        }
    }
}

/// Length of the largest usable region.
pub open spec fn usable_max(es: Seq<Entry>) -> int
    decreases es.len(),
{
    if es.len() == 0 {
        0
    } else {
        let m = usable_max(es.drop_last());
        if es.last().usable && es.last().length > m {
            es.last().length as int
        } else {
            m
        }
    }
}

proof fn lemma_usable_len_mono(es: Seq<Entry>, i: int)
    requires
        0 <= i <= es.len(),
    ensures
        0 <= usable_len(es.take(i)) <= usable_len(es),
    decreases es.len() - i,
{
    if i < es.len() {
        lemma_usable_len_mono(es, i + 1);
        assert(es.take(i + 1).drop_last() =~= es.take(i));
        if i > 0 {
            lemma_usable_len_nonneg(es.take(i));
        }
    } else {
        assert(es.take(i) =~= es);
        lemma_usable_len_nonneg(es);
    }
    lemma_usable_len_nonneg(es.take(i));
}

proof fn lemma_usable_len_nonneg(es: Seq<Entry>)
    ensures
        usable_len(es) >= 0,
    decreases es.len(),
{
    if es.len() > 0 {
        lemma_usable_len_nonneg(es.drop_last());
    }
}

/// The free list of physical frames. The frame freed last is handed out first.
pub struct FrameAllocator {
    free: Vec<u64>,
}

impl View for FrameAllocator {
    type V = Seq<u64>;

    closed spec fn view(&self) -> Seq<u64> {
        self.free@
    }
}

impl FrameAllocator {
    pub fn new() -> (r: Self)
        ensures
            r@ == Seq::<u64>::empty(),
    {
        FrameAllocator { free: Vec::new() }
    }

    pub fn free_frames(&self) -> (r: u64)
        ensures
            r == self@.len(),
    {
        self.free.len() as u64
    }

    /// Put a frame on the free list.
    fn push(&mut self, pa: u64)
        ensures
            final(self)@ == old(self)@.push(pa),
    {
        self.free.push(pa);
    }

    /// Take the frame that contains the address on top of the list.
    pub fn alloc_frame(&mut self) -> (r: Option<u64>)
        ensures
            old(self)@.len() == 0 ==> r is None && final(self)@ == old(self)@,
            old(self)@.len() > 0 ==> r == Some(down(old(self)@.last() as int, 4096) as u64)
                && final(self)@ == old(self)@.drop_last(),
    {
        match self.free.pop() {
            Some(pa) => Some(align_down(pa, FRAME_SIZE)),
            None => None,
        }
    }

    pub fn dealloc(&mut self, frame: u64)
        ensures
            final(self)@ == old(self)@.push(frame),
    {
        self.push(frame);
    }
}

/// Freeing a frame and allocating again gives that frame back and leaves the
/// list as it was.
pub proof fn law_alloc_undoes_dealloc(list: Seq<u64>, frame: u64)
    requires
        frame % 4096 == 0,
    ensures
        down(list.push(frame).last() as int, 4096) == frame,
        list.push(frame).drop_last() == list,
{
    assert(list.push(frame).drop_last() =~= list);
}

/// Put every whole frame of every usable region on the free list.
pub fn init(fa: &mut FrameAllocator, entries: &[Entry]) -> (stats: MemStats)
    requires
        usable_len(entries@) <= u64::MAX,
        old(fa)@.len() == 0,
        forall|i: int|
            0 <= i < entries@.len() && (#[trigger] entries@[i]).usable ==> entries@[i].base
                + entries@[i].length + 4095 <= u64::MAX,
        frames_in(entries@).len() <= u64::MAX,
    ensures
        final(fa)@ == frames_in(entries@),
        stats.usable_bytes == usable_len(entries@),
        stats.usable_frames == frames_in(entries@).len(),
        stats.largest_region_bytes == usable_max(entries@),
        stats.heap_bytes == HEAP_SIZE,
{
    let mut usable_bytes: u64 = 0;
    let mut usable_frames: u64 = 0;
    let mut largest: u64 = 0;
    let n: usize = entries.len();
    let mut i: usize = 0;
    assert(fa@ =~= frames_in(entries@.take(0)));
    while i < n
        invariant
            i <= n,
            n == entries@.len(),
            usable_len(entries@) <= u64::MAX,
            frames_in(entries@).len() <= u64::MAX,
            forall|k: int|
                0 <= k < entries@.len() && (#[trigger] entries@[k]).usable ==> entries@[k].base
                    + entries@[k].length + 4095 <= u64::MAX,
            fa@ == frames_in(entries@.take(i as int)),
            usable_bytes == usable_len(entries@.take(i as int)),
            usable_frames == frames_in(entries@.take(i as int)).len(),
            largest == usable_max(entries@.take(i as int)),
        decreases n - i,
    {
        let e = entries[i];
        let ghost pre = entries@.take(i as int);
        let ghost next = entries@.take(i + 1);
        assert(next.drop_last() =~= pre);
        assert(next.last() == e);
        proof {
            lemma_usable_len_mono(entries@, i + 1);
            lemma_frames_mono(entries@, i + 1);
        }
        if e.usable {
            usable_bytes = usable_bytes + e.length;
            if e.length > largest {
                largest = e.length;
            }
            let end: u64 = align_down(e.base + e.length, FRAME_SIZE);
            let start: u64 = align_up(e.base, FRAME_SIZE);
            let mut pa: u64 = start;
            let ghost mut k: int = 0;
            let ghost fs = frames_of(e);
            let ghost before = fa@;
            assert(before + fs.take(0) =~= before);
            while pa < end
                invariant
                    e.usable,
                    start == frame_span(e).0,
                    end == frame_span(e).1,
                    start % 4096 == 0,
                    end % 4096 == 0,
                    end <= u64::MAX - 4095,
                    pa == start + 4096 * k,
                    k >= 0,
                    k == 0 || pa <= end,
                    fs == frames_of(e),
                    k <= fs.len(),
                    fa@ == before + fs.take(k),
                    usable_frames == before.len() + k,
                    before.len() + fs.len() <= u64::MAX,
                decreases end + 4096 - pa,
            {
                assert(fs[k] == pa);
                fa.push(pa);
                assert(fs.take(k + 1) =~= fs.take(k).push(pa));
                assert(fa@ =~= before + fs.take(k + 1));
                usable_frames = usable_frames + 1;
                pa = pa + FRAME_SIZE;
                proof {
                    k = k + 1;
                }
            }
            assert(k == fs.len());
            assert(fs.take(k) =~= fs);
        } else {
            assert(frames_of(e) =~= Seq::<u64>::empty());
            assert(fa@ =~= frames_in(next));
        }
        i = i + 1;
    }
    assert(entries@.take(n as int) =~= entries@);
    MemStats {
        usable_bytes,
        usable_frames,
        largest_region_bytes: largest,
        heap_bytes: HEAP_SIZE,
    }
}

proof fn lemma_frames_mono(es: Seq<Entry>, i: int)
    requires
        0 <= i <= es.len(),
    ensures
        frames_in(es.take(i)).len() <= frames_in(es).len(),
    decreases es.len() - i,
{
    if i < es.len() {
        lemma_frames_mono(es, i + 1);
        assert(es.take(i + 1).drop_last() =~= es.take(i));
    } else {
        assert(es.take(i) =~= es);
    }
}

} // verus!
