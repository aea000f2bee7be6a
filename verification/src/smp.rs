//! The processors: which are to be started, and the block each one has.
use vstd::prelude::*;

use crate::sys::MAX_CPUS;

verus! {

/// A processor's own block. Its address is its first word, so that the
/// processor can find it.
#[derive(Clone, Copy)]
pub struct PerCpu {
    pub self_ptr: u64,
    pub cpu_index: u32,
    pub lapic_id: u32,
}

/// The processors of the machine.
pub struct Smp {
    blocks: Vec<PerCpu>,
    count: usize,
    online: usize,
    next_index: u32,
}

#[verifier::ext_equal]
pub struct Sm {
    pub blocks: Seq<PerCpu>,
    pub count: usize,
    pub online: usize,
    pub next_index: u32,
}

impl View for Smp {
    type V = Sm;

    closed spec fn view(&self) -> Sm {
        Sm {
            blocks: self.blocks@,
            count: self.count,
            online: self.online,
            next_index: self.next_index,
        }
    }
}

/// The processors to start: all but the one that runs already.
pub open spec fn to_start(ids: Seq<u32>, bsp: u32) -> Seq<u32>
    decreases ids.len(),
{
    if ids.len() == 0 {
        Seq::empty()
    } else if ids.last() == bsp {
        to_start(ids.drop_last(), bsp)
    } else {
        to_start(ids.drop_last(), bsp).push(ids.last())
    }
}

impl Smp {
    /// One block for each processor there can be.
    pub closed spec fn wf(self) -> bool {
        self.blocks@.len() == MAX_CPUS && self.online <= MAX_CPUS && self.next_index >= 1
    }

    pub fn new() -> (r: Smp)
        ensures
            r.wf(),
            r@.count == 1,
            r@.online == 0,
            r@.next_index == 1,
            r@.blocks == Seq::new(
                MAX_CPUS as nat,
                |i: int| PerCpu { self_ptr: 0, cpu_index: 0, lapic_id: 0 },
            ),
    {
        let mut blocks: Vec<PerCpu> = Vec::new();
        let mut i: u32 = 0;
        while i < MAX_CPUS
            invariant
                i <= MAX_CPUS,
                blocks@ == Seq::new(
                    i as nat,
                    |j: int| PerCpu { self_ptr: 0, cpu_index: 0, lapic_id: 0 },
                ),
            decreases MAX_CPUS - i,
        {
            blocks.push(PerCpu { self_ptr: 0, cpu_index: 0, lapic_id: 0 });
            i = i + 1;
            assert(blocks@ =~= Seq::new(
                i as nat,
                |j: int| PerCpu { self_ptr: 0, cpu_index: 0, lapic_id: 0 },
            ));
        }
        Smp { blocks, count: 1, online: 0, next_index: 1 }
    }

    pub fn cpu_count(&self) -> (r: usize)
        ensures
            r == self@.count,
    {
        self.count
    }

    pub fn online(&self) -> (r: usize)
        ensures
            r == self@.online,
    {
        self.online
    }

    /// Fill in the first processor's block, which lies at `at`, and list the
    /// others to start.
    pub fn init(&mut self, ids: &[u32], bsp: u32, at: u64) -> (r: Vec<u32>)
        requires
            old(self).wf(),
            old(self)@.online == 0,
        ensures
            final(self).wf(),
            final(self)@ == (Sm {
                blocks: old(self)@.blocks.update(
                    0,
                    PerCpu { self_ptr: at, cpu_index: 0, lapic_id: bsp },
                ),
                count: ids@.len() as usize,
                online: 1,
                ..old(self)@
            }),
            r@ == to_start(ids@, bsp),
    {
        self.count = ids.len();
        self.blocks.set(0, PerCpu { self_ptr: at, cpu_index: 0, lapic_id: bsp });
        self.online = 1;
        let mut r: Vec<u32> = Vec::new();
        let n: usize = ids.len();
        let mut i: usize = 0;
        assert(to_start(ids@.take(0), bsp) =~= Seq::empty());
        while i < n
            invariant
                i <= n,
                n == ids@.len(),
                r@ == to_start(ids@.take(i as int), bsp),
            decreases n - i,
        {
            assert(ids@.take(i + 1).drop_last() =~= ids@.take(i as int));
            if ids[i] != bsp {
                r.push(ids[i]);
            }
            i = i + 1;
        }
        assert(ids@.take(n as int) =~= ids@);
        r
    }

    /// The index of a processor that has just started; nothing where there are
    /// more than can be.
    pub fn next_cpu(&mut self) -> (r: Option<u32>)
        requires
            old(self).wf(),
            old(self)@.next_index < u32::MAX,
        ensures
            final(self).wf(),
            final(self)@ == (Sm { next_index: (old(self)@.next_index + 1) as u32, ..old(self)@ }),
            r == if old(self)@.next_index < MAX_CPUS {
                Some(old(self)@.next_index)
            } else {
                None
            },
    {
        let i: u32 = self.next_index;
        self.next_index = i + 1;
        if i < MAX_CPUS {
            Some(i)
        } else {
            None
        }
    }

    /// Fill in a started processor's block, and count it.
    pub fn enter(&mut self, index: u32, lapic_id: u32, at: u64)
        requires
            old(self).wf(),
            index < MAX_CPUS,
            old(self)@.online < MAX_CPUS,
        ensures
            final(self).wf(),
            final(self)@ == (Sm {
                blocks: old(self)@.blocks.update(
                    index as int,
                    PerCpu { self_ptr: at, cpu_index: index, lapic_id },
                ),
                online: (old(self)@.online + 1) as usize,
                ..old(self)@
            }),
    {
        self.blocks.set(index as usize, PerCpu { self_ptr: at, cpu_index: index, lapic_id });
        self.online = self.online + 1;
    }
}

} // verus!
