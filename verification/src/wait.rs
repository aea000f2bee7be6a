//! The one wait primitive and the dispatcher objects built on it.
//!
//! A queue holds the ids of blocked threads in the order they came. What an
//! operation wakes, it returns; a thread that has to block is queued, and the
//! operation says so.
use vstd::prelude::*;

verus! {

/// Threads blocked on one condition, oldest first.
pub struct WaitQueue {
    waiters: Vec<u64>,
}

impl View for WaitQueue {
    type V = Seq<u64>;

    closed spec fn view(&self) -> Seq<u64> {
        self.waiters@
    }
}

impl WaitQueue {
    pub fn new() -> (r: Self)
        ensures
            r@ == Seq::<u64>::empty(),
    {
        WaitQueue { waiters: Vec::new() }
    }

    /// Queue a thread until it is woken.
    pub fn wait(&mut self, tid: u64)
        ensures
            final(self)@ == old(self)@.push(tid),
    {
        self.waiters.push(tid);
    }

    /// Queue a thread if its condition says to block; whether it was queued.
    pub fn wait_if(&mut self, should_block: bool, tid: u64) -> (blocked: bool)
        ensures
            blocked == should_block,
            final(self)@ == if should_block {
                old(self)@.push(tid)
            } else {
                old(self)@
            },
    {
        if should_block {
            self.waiters.push(tid);
        }
        should_block
    }

    /// Wake the oldest blocked thread, if any.
    pub fn wake_one(&mut self) -> (r: Option<u64>)
        ensures
            old(self)@.len() == 0 ==> r is None && final(self)@ == old(self)@,
            old(self)@.len() > 0 ==> r == Some(old(self)@[0]) && final(self)@ == old(self)@.skip(1),
    {
        if self.waiters.len() == 0 {
            None
        } else {
            let t: u64 = self.waiters.remove(0);
            assert(self@ =~= old(self)@.skip(1));
            Some(t)
        }
    }

    /// Wake the oldest blocked thread; if none is blocked, set `latch`.
    pub fn wake_one_or(&mut self, latch: &mut bool) -> (r: Option<u64>)
        ensures
            old(self)@.len() == 0 ==> r is None && final(self)@ == old(self)@ && *final(latch),
            old(self)@.len() > 0 ==> r == Some(old(self)@[0]) && final(self)@ == old(self)@.skip(1)
                && *final(latch) == *old(latch),
    {
        let r = self.wake_one();
        if r.is_none() {
            *latch = true;
        }
        r
    }

    /// Wake every blocked thread, oldest first.
    pub fn wake_all(&mut self) -> (r: Vec<u64>)
        ensures
            r@ == old(self)@,
            final(self)@ == Seq::<u64>::empty(),
    {
        let mut out: Vec<u64> = Vec::new();
        std::mem::swap(&mut out, &mut self.waiters);
        out
    }

    /// Wake at most `n` blocked threads, oldest first.
    fn wake_upto(&mut self, n: u32) -> (r: Vec<u64>)
        ensures
            r@ == old(self)@.take(upto(old(self)@, n as int)),
            final(self)@ == old(self)@.skip(upto(old(self)@, n as int)),
    {
        let mut out: Vec<u64> = Vec::new();
        let mut i: u32 = 0;
        let ghost all = self@;
        while i < n && self.waiters.len() > 0
            invariant
                i <= n,
                i <= all.len(),
                out@ == all.take(i as int),
                self@ == all.skip(i as int),
            decreases n - i,
        {
            let t: u64 = self.waiters.remove(0);
            out.push(t);
            i = i + 1;
            assert(out@ =~= all.take(i as int));
            assert(self@ =~= all.skip(i as int));
        }
        out
    }
}

/// How many of at most `n` threads a queue can give.
pub open spec fn upto(q: Seq<u64>, n: int) -> int {
    if n <= q.len() {
        n
    } else {
        q.len() as int
    }
}

// --- events ---

/// A manual event stays signalled until it is reset; an automatic one lets one
/// waiter go per signal and clears itself.
#[derive(Clone, Copy, PartialEq, Eq, Structural)]
pub enum EventMode {
    Manual,
    Auto,
}

pub struct Event {
    signaled: bool,
    mode: EventMode,
    queue: WaitQueue,
}

/// What an event is.
#[verifier::ext_equal]
pub struct Ev {
    pub signaled: bool,
    pub mode: EventMode,
    pub waiters: Seq<u64>,
}

impl View for Event {
    type V = Ev;

    closed spec fn view(&self) -> Ev {
        Ev { signaled: self.signaled, mode: self.mode, waiters: self.queue@ }
    }
}

/// The event after a signal, and the threads it woke.
pub open spec fn signalled(e: Ev) -> (Ev, Seq<u64>) {
    match e.mode {
        EventMode::Manual => (Ev { signaled: true, waiters: Seq::empty(), ..e }, e.waiters),
        EventMode::Auto => if e.waiters.len() > 0 {
            (Ev { waiters: e.waiters.skip(1), ..e }, seq![e.waiters[0]])
        } else {
            (Ev { signaled: true, ..e }, Seq::empty())
        },
    }
}

/// The event after its signal was taken, where there was one.
pub open spec fn taken(e: Ev) -> (Ev, bool) {
    match e.mode {
        EventMode::Manual => (e, e.signaled),
        EventMode::Auto => (Ev { signaled: false, ..e }, e.signaled),
    }
}

/// The event after thread `tid` waited on it, and whether the thread blocks.
pub open spec fn awaited(e: Ev, tid: u64) -> (Ev, bool) {
    let (t, ok) = taken(e);
    if ok {
        (t, false)
    } else {
        (Ev { waiters: e.waiters.push(tid), ..e }, true)
    }
}

impl Event {
    /// A manual event, not signalled.
    pub fn new() -> (r: Self)
        ensures
            r@ == (Ev { signaled: false, mode: EventMode::Manual, waiters: Seq::empty() }),
    {
        Event::with_mode(EventMode::Manual)
    }

    pub fn with_mode(mode: EventMode) -> (r: Self)
        ensures
            r@ == (Ev { signaled: false, mode, waiters: Seq::empty() }),
    {
        Event { signaled: false, mode, queue: WaitQueue::new() }
    }

    /// Signal the event; the threads to wake.
    pub fn signal(&mut self) -> (woken: Vec<u64>)
        ensures
            (final(self)@, woken@) == signalled(old(self)@),
    {
        match self.mode {
            EventMode::Manual => {
                self.signaled = true;
                self.queue.wake_all()
            },
            EventMode::Auto => {
                let mut woken: Vec<u64> = Vec::new();
                match self.queue.wake_one_or(&mut self.signaled) {
                    Some(t) => { woken.push(t); },
                    None => {},
                }
                assert(woken@ =~= signalled(old(self)@).1);
                woken
            },
        }
    }

    pub fn reset(&mut self)
        ensures
            final(self)@ == (Ev { signaled: false, ..old(self)@ }),
    {
        self.signaled = false;
    }

    pub fn is_signaled(&self) -> (r: bool)
        ensures
            r == self@.signaled,
    {
        self.signaled
    }

    /// Take the signal without blocking; an automatic event is cleared by it.
    pub fn try_take(&mut self) -> (r: bool)
        ensures
            (final(self)@, r) == taken(old(self)@),
    {
        let s: bool = self.signaled;
        match self.mode {
            EventMode::Manual => {},
            EventMode::Auto => {
                self.signaled = false;
            },
        }
        s
    }

    /// Take the signal, or queue the thread; whether it has to block. A thread
    /// woken from an automatic event has the signal; one woken from a manual
    /// event looks again.
    pub fn wait(&mut self, tid: u64) -> (blocked: bool)
        ensures
            (final(self)@, blocked) == awaited(old(self)@, tid),
    {
        if self.try_take() {
            false
        } else {
            self.queue.wait(tid);
            true
        }
    }
}

/// A signal that nobody waits for is taken exactly once from an automatic
/// event, and any number of times from a manual one.
pub proof fn law_signal_is_taken(e: Ev)
    requires
        e.waiters.len() == 0,
    ensures
        ({
            let once = taken(signalled(e).0);
            let twice = taken(once.0);
            &&& once.1
            &&& twice.1 == (e.mode == EventMode::Manual)
        }),
{
}

/// A signal wakes the oldest waiter of an automatic event and leaves the event
/// unsignalled for everyone else; it wakes every waiter of a manual one.
pub proof fn law_signal_wakes(e: Ev)
    requires
        e.waiters.len() > 0,
        !e.signaled,
    ensures
        ({
            let (after, woken) = signalled(e);
            match e.mode {
                EventMode::Manual => woken == e.waiters && after.signaled,
                EventMode::Auto => woken == seq![e.waiters[0]] && !after.signaled
                    && after.waiters == e.waiters.skip(1),
            }
        }),
{
}

// --- semaphores ---

/// Signalled while its count is positive; a successful wait takes one unit.
pub struct Semaphore {
    count: i32,
    limit: i32,
    queue: WaitQueue,
}

#[verifier::ext_equal]
pub struct Sem {
    pub count: i32,
    pub limit: i32,
    pub waiters: Seq<u64>,
}

impl View for Semaphore {
    type V = Sem;

    closed spec fn view(&self) -> Sem {
        Sem { count: self.count, limit: self.limit, waiters: self.queue@ }
    }
}

pub open spec fn sem_taken(s: Sem) -> (Sem, bool) {
    if s.count <= 0 {
        (s, false)
    } else {
        (Sem { count: (s.count - 1) as i32, ..s }, true)
    }
}

/// `n` units added, and the count before; none where `n` is not positive or
/// the limit would be passed. At most `n` waiters wake, oldest first.
pub open spec fn sem_released(s: Sem, n: i32) -> Option<(Sem, i32, Seq<u64>)> {
    if n <= 0 || s.count + n > s.limit {
        None
    } else {
        let k = upto(s.waiters, n as int);
        Some(
            (
                Sem { count: (s.count + n) as i32, waiters: s.waiters.skip(k), ..s },
                s.count,
                s.waiters.take(k),
            ),
        )
    }
}

impl Semaphore {
    pub fn new(initial: i32, limit: i32) -> (r: Self)
        ensures
            r@ == (Sem { count: initial, limit, waiters: Seq::empty() }),
    {
        Semaphore { count: initial, limit, queue: WaitQueue::new() }
    }

    /// Take one unit without blocking.
    pub fn try_take(&mut self) -> (r: bool)
        ensures
            (final(self)@, r) == sem_taken(old(self)@),
    {
        if self.count <= 0 {
            false
        } else {
            self.count = self.count - 1;
            true
        }
    }

    /// Take one unit, or queue the thread; whether it has to block. A woken
    /// thread tries again.
    pub fn wait(&mut self, tid: u64) -> (blocked: bool)
        ensures
            blocked == !sem_taken(old(self)@).1,
            final(self)@ == if blocked {
                (Sem { waiters: old(self)@.waiters.push(tid), ..old(self)@ })
            } else {
                sem_taken(old(self)@).0
            },
    {
        if self.try_take() {
            false
        } else {
            self.queue.wait(tid);
            true
        }
    }

    /// Add `n` units; the count before and the threads to wake.
    pub fn release(&mut self, n: i32) -> (r: Option<(i32, Vec<u64>)>)
        ensures
            match sem_released(old(self)@, n) {
                None => r is None && final(self)@ == old(self)@,
                Some((s, prev, woken)) => r matches Some((p, w)) && p == prev && w@ == woken
                    && final(self)@ == s,
            },
    {
        if n <= 0 || (self.count > 0 && n > i32::MAX - self.count) {
            return None;
        }
        let prev: i32 = self.count;
        let sum: i32 = prev + n;
        if sum > self.limit {
            return None;
        }
        self.count = sum;
        let woken = self.queue.wake_upto(n as u32);
        Some((prev, woken))
    }

    pub fn is_signaled(&self) -> (r: bool)
        ensures
            r == (self@.count > 0),
    {
        self.count > 0
    }
}

/// The count of a semaphore that starts within its limits stays within them,
/// and releasing what was taken restores it.
pub proof fn law_semaphore_stays_within_limit(s: Sem, n: i32)
    requires
        0 <= s.count <= s.limit,
    ensures
        0 <= sem_taken(s).0.count <= s.limit,
        sem_released(s, n) matches Some((t, _, _)) ==> 0 <= t.count <= s.limit,
        s.count > 0 ==> (sem_released(sem_taken(s).0, 1) matches Some((t, _, _)) && t.count
            == s.count),
{
}

// --- mutants ---

/// A mutex owned by a thread, which may take it again. Owner 0: free.
pub struct Mutant {
    owner: u64,
    recursion: u32,
    queue: WaitQueue,
}

#[verifier::ext_equal]
pub struct Mut {
    pub owner: u64,
    pub recursion: u32,
    pub waiters: Seq<u64>,
}

impl View for Mutant {
    type V = Mut;

    closed spec fn view(&self) -> Mut {
        Mut { owner: self.owner, recursion: self.recursion, waiters: self.queue@ }
    }
}

pub open spec fn acquired(m: Mut, tid: u64) -> (Mut, bool) {
    if m.owner == tid {
        (Mut { recursion: m.recursion.wrapping_add(1), ..m }, true)
    } else if m.owner == 0 {
        (Mut { owner: tid, recursion: 1, ..m }, true)
    } else {
        (m, false)
    }
}

/// One level given up: the mutant, the depth before, and the thread woken
/// where it became free. None where `tid` is not the owner.
pub open spec fn released(m: Mut, tid: u64) -> Option<(Mut, u32, Option<u64>)> {
    if m.owner != tid {
        None
    } else if m.recursion > 1 {
        Some((Mut { recursion: (m.recursion - 1) as u32, ..m }, m.recursion, None))
    } else if m.waiters.len() > 0 {
        Some(
            (
                Mut { owner: 0, recursion: 0, waiters: m.waiters.skip(1) },
                m.recursion,
                Some(m.waiters[0]),
            ),
        )
    } else {
        Some((Mut { owner: 0, recursion: 0, ..m }, m.recursion, None))
    }
}

impl Mutant {
    /// Free where `initial_owner` is 0, else held once by that thread.
    pub fn new(initial_owner: u64) -> (r: Self)
        ensures
            r@ == (Mut {
                owner: initial_owner,
                recursion: if initial_owner != 0 {
                    1
                } else {
                    0
                },
                waiters: Seq::empty(),
            }),
    {
        Mutant {
            owner: initial_owner,
            recursion: if initial_owner != 0 { 1 } else { 0 },
            queue: WaitQueue::new(),
        }
    }

    pub fn try_acquire(&mut self, tid: u64) -> (r: bool)
        ensures
            (final(self)@, r) == acquired(old(self)@, tid),
    {
        if self.owner == tid {
            self.recursion = self.recursion.wrapping_add(1);
            true
        } else if self.owner == 0 {
            self.owner = tid;
            self.recursion = 1;
            true
        } else {
            false
        }
    }

    /// Take the mutant, or queue the thread; whether it has to block. A woken
    /// thread tries again.
    pub fn acquire(&mut self, tid: u64) -> (blocked: bool)
        ensures
            blocked == !acquired(old(self)@, tid).1,
            final(self)@ == if blocked {
                (Mut { waiters: old(self)@.waiters.push(tid), ..old(self)@ })
            } else {
                acquired(old(self)@, tid).0
            },
    {
        if self.try_acquire(tid) {
            false
        } else {
            self.queue.wait(tid);
            true
        }
    }

    /// Give up one level: the depth before (1: now free) and the thread to
    /// wake. An error where `tid` is not the owner.
    pub fn release(&mut self, tid: u64) -> (r: Result<(u32, Option<u64>), ()>)
        ensures
            match released(old(self)@, tid) {
                None => r is Err && final(self)@ == old(self)@,
                Some((m, prev, woken)) => r == Ok::<(u32, Option<u64>), ()>((prev, woken))
                    && final(self)@ == m,
            },
    {
        if self.owner != tid {
            return Err(());
        }
        let prev: u32 = self.recursion;
        if prev <= 1 {
            self.recursion = 0;
            self.owner = 0;
            Ok((prev, self.queue.wake_one()))
        } else {
            self.recursion = prev - 1;
            Ok((prev, None))
        }
    }

    pub fn is_signaled(&self, tid: u64) -> (r: bool)
        ensures
            r == (self@.owner == 0 || self@.owner == tid),
    {
        self.owner == 0 || self.owner == tid
    }
}

/// While one thread holds a mutant no other can take or release it, and
/// releasing what was taken gives the mutant back as it was.
pub proof fn law_mutant_is_exclusive(m: Mut, tid: u64, other: u64)
    requires
        tid != 0,
        other != tid,
        m.owner == 0 ==> m.recursion == 0,
        m.owner == tid ==> 0 < m.recursion < u32::MAX,
    ensures
        ({
            let (held, ok) = acquired(m, tid);
            ok ==> {
                &&& !acquired(held, other).1
                &&& released(held, other) is None
                &&& m.waiters.len() == 0 ==> (released(held, tid) matches Some((back, _, _))
                    && back == m)
            }
        }),
{
}

} // verus!
