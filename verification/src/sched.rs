//! The thread scheduler: one shared ready queue, round robin, any number of
//! processors.
//!
//! A thread is known by its place in the table. The switch itself, and the
//! saving of registers, belong to the machine; what is here decides who runs
//! next and keeps the books.
use vstd::prelude::*;

verus! {

pub const KSTACK_SIZE: u64 = 16384;

#[derive(Clone, Copy, PartialEq, Eq, Structural)]
pub enum State {
    Ready,
    Running,
    Blocked,
    Exited,
}

/// What the scheduler knows of a thread.
#[derive(Clone, Copy)]
pub struct Thread {
    pub id: u64,
    pub state: State,
    pub is_idle: bool,
    /// Some processor is still on this thread's kernel stack.
    pub running: bool,
    /// The page-table root to run under.
    pub cr3: u64,
    /// The top of its kernel stack, if it ever enters the kernel from user
    /// mode.
    pub kstack_top: Option<u64>,
    /// The process it belongs to, if it is a user thread.
    pub task: Option<u64>,
    pub fsbase: u64,
    /// The user `gs` base; 0 for one that has none of its own.
    pub gsbase: u64,
}

impl Thread {
    /// The process it belongs to, if it is a user thread.
    pub fn task(&self) -> (r: Option<u64>)
        ensures
            r == self.task,
    {
        self.task
    }

    /// Its saved user `fs` base.
    pub fn fsbase(&self) -> (r: u64)
        ensures
            r == self.fsbase,
    {
        self.fsbase
    }

    /// Its user `gs` base.
    pub fn gsbase(&self) -> (r: u64)
        ensures
            r == self.gsbase,
    {
        self.gsbase
    }

    /// Run under another page-table root from now on.
    pub fn set_cr3(&mut self, v: u64)
        ensures
            *final(self) == (Thread { cr3: v, ..*old(self) }),
    {
        self.cr3 = v;
    }

    /// Keep another user `fs` base from now on.
    pub fn set_fsbase(&mut self, v: u64)
        ensures
            *final(self) == (Thread { fsbase: v, ..*old(self) }),
    {
        self.fsbase = v;
    }
}

/// One processor's part of the books.
#[derive(Clone, Copy)]
pub struct CpuSlot {
    pub current: Option<usize>,
    pub idle: Option<usize>,
    /// The thread this processor has just left, and whether it went to sleep.
    pub handoff: Option<(usize, bool)>,
}

pub struct Sched {
    ready: Vec<usize>,
    threads: Vec<Thread>,
    cpus: Vec<CpuSlot>,
    /// Threads that have ended and are not freed yet.
    graveyard: Vec<usize>,
    next_tid: u64,
    started: bool,
    switches: u64,
}

#[verifier::ext_equal]
pub struct Sch {
    pub ready: Seq<usize>,
    pub threads: Seq<Thread>,
    pub cpus: Seq<CpuSlot>,
    pub graveyard: Seq<usize>,
    pub next_tid: u64,
    pub started: bool,
    pub switches: u64,
}

impl View for Sched {
    type V = Sch;

    closed spec fn view(&self) -> Sch {
        Sch {
            ready: self.ready@,
            threads: self.threads@,
            cpus: self.cpus@,
            graveyard: self.graveyard@,
            next_tid: self.next_tid,
            started: self.started,
            switches: self.switches,
        }
    }
}

/// The thread a processor has left awake and not yet let go of.
pub open spec fn left_awake(p: CpuSlot) -> Option<usize> {
    match p.handoff {
        Some((t, false)) => Some(t),
        _ => None,
    }
}

/// Thread `t` is some processor's idle thread.
pub open spec fn is_idle_of(s: Sch, t: usize) -> bool {
    exists|c: int| 0 <= c < s.cpus.len() && (#[trigger] s.cpus[c]).idle == Some(t)
}

/// Thread `t` runs on some processor.
pub open spec fn is_current(s: Sch, t: usize) -> bool {
    exists|c: int| 0 <= c < s.cpus.len() && (#[trigger] s.cpus[c]).current == Some(t)
}

/// Some processor has left thread `t` awake.
pub open spec fn is_leaving(s: Sch, t: usize) -> bool {
    exists|c: int| 0 <= c < s.cpus.len() && left_awake(#[trigger] s.cpus[c]) == Some(t)
}

/// Every name is in the table.
pub open spec fn named(s: Sch) -> bool {
    &&& forall|i: int| 0 <= i < s.ready.len() ==> (#[trigger] s.ready[i]) < s.threads.len()
    &&& forall|i: int| 0 <= i < s.graveyard.len() ==> (#[trigger] s.graveyard[i]) < s.threads.len()
    &&& forall|c: int|
        0 <= c < s.cpus.len() ==> {
            let p = #[trigger] s.cpus[c];
            &&& (p.current matches Some(t) ==> t < s.threads.len())
            &&& (p.idle matches Some(t) ==> t < s.threads.len())
            &&& (p.handoff matches Some((t, _)) ==> t < s.threads.len())
        }
}

/// An idle thread is some processor's.
pub open spec fn idle_known(s: Sch) -> bool {
    forall|t: usize|
        t < s.threads.len() && (#[trigger] s.threads[t as int]).is_idle ==> is_idle_of(s, t)
}

/// A thread in the ready queue is ready, is there once, and is nowhere else.
pub open spec fn queue_sound(s: Sch) -> bool {
    &&& forall|i: int|
        #![trigger s.ready[i]]
        0 <= i < s.ready.len() ==> s.threads[s.ready[i] as int].state == State::Ready
            && !is_current(s, s.ready[i]) && !is_leaving(s, s.ready[i])
    &&& forall|i: int, j: int|
        #![trigger s.ready[i], s.ready[j]]
        0 <= i < j < s.ready.len() ==> s.ready[i] != s.ready[j]
}

/// A thread runs on at most one processor, and none is leaving it.
pub open spec fn current_sound(s: Sch) -> bool {
    &&& forall|c: int, d: int|
        #![trigger s.cpus[c], s.cpus[d]]
        0 <= c < d < s.cpus.len() && s.cpus[c].current is Some && s.cpus[c].current
            == s.cpus[d].current ==> is_idle_of(s, s.cpus[c].current->0)
    &&& forall|c: int|
        #![trigger s.cpus[c]]
        0 <= c < s.cpus.len() && s.cpus[c].current is Some && !is_idle_of(
            s,
            s.cpus[c].current->0,
        ) ==> s.threads[s.cpus[c].current->0 as int].state == State::Running && !is_leaving(
            s,
            s.cpus[c].current->0,
        )
}

/// At most one processor is leaving a thread awake, and it is ready.
pub open spec fn leaving_sound(s: Sch) -> bool {
    &&& forall|c: int, d: int|
        #![trigger s.cpus[c], s.cpus[d]]
        0 <= c < d < s.cpus.len() && left_awake(s.cpus[c]) is Some && left_awake(s.cpus[c])
            == left_awake(s.cpus[d]) ==> is_idle_of(s, left_awake(s.cpus[c])->0)
    &&& forall|c: int|
        #![trigger s.cpus[c]]
        0 <= c < s.cpus.len() && left_awake(s.cpus[c]) is Some && !is_idle_of(
            s,
            left_awake(s.cpus[c])->0,
        ) ==> s.threads[left_awake(s.cpus[c])->0 as int].state == State::Ready
}

/// A processor's idle thread is marked as one, is no other processor's, is
/// never in the ready queue, and runs on its own processor only.
pub open spec fn idle_sound(s: Sch) -> bool {
    &&& forall|t: usize| #[trigger] is_idle_of(s, t) ==> s.threads[t as int].is_idle
    &&& forall|c: int, d: int|
        #![trigger s.cpus[c], s.cpus[d]]
        0 <= c < d < s.cpus.len() && s.cpus[c].idle is Some ==> s.cpus[c].idle != s.cpus[d].idle
    &&& forall|i: int| 0 <= i < s.ready.len() ==> !is_idle_of(s, #[trigger] s.ready[i])
    &&& forall|c: int|
        0 <= c < s.cpus.len() && (#[trigger] s.cpus[c]).current is Some && is_idle_of(
            s,
            s.cpus[c].current->0,
        ) ==> s.cpus[c].idle == s.cpus[c].current && s.threads[s.cpus[c].current->0 as int].state
            == State::Running
}

/// The books agree.
pub open spec fn sound(s: Sch) -> bool {
    named(s) && idle_known(s) && queue_sound(s) && current_sound(s) && leaving_sound(s)
        && idle_sound(s)
}

/// The processor can switch: it runs something, has something to fall back
/// on, and has let go of what it ran before.
pub open spec fn can_switch(s: Sch, cpu: int) -> bool {
    &&& 0 <= cpu < s.cpus.len()
    &&& s.cpus[cpu].current is Some
    &&& s.cpus[cpu].idle is Some
    &&& s.cpus[cpu].handoff is None
}

/// The thread that runs next, and the ready queue without it.
pub open spec fn picked(s: Sch, cpu: int) -> (Seq<usize>, usize) {
    if s.ready.len() > 0 {
        (s.ready.skip(1), s.ready[0])
    } else {
        (s.ready, s.cpus[cpu].idle->0)
    }
}

pub open spec fn with_state(ts: Seq<Thread>, t: usize, st: State) -> Seq<Thread> {
    ts.update(t as int, Thread { state: st, ..ts[t as int] })
}

/// A processor turns from its thread to the next. The thread it leaves goes
/// back into the queue only once the processor is off its stack.
pub open spec fn switched(s: Sch, cpu: int, block: bool) -> (Sch, Option<(usize, usize)>) {
    let prev = s.cpus[cpu].current->0;
    let (ready, next) = picked(s, cpu);
    if prev == next {
        (Sch { ready, ..s }, None)
    } else {
        let p = s.threads[prev as int];
        let ts = if block {
            with_state(s.threads, prev, State::Blocked)
        } else if p.state == State::Running && !p.is_idle {
            with_state(s.threads, prev, State::Ready)
        } else {
            s.threads
        };
        (
            Sch {
                ready,
                threads: with_state(ts, next, State::Running),
                cpus: s.cpus.update(
                    cpu,
                    CpuSlot {
                        current: Some(next),
                        handoff: Some((prev, block)),
                        ..s.cpus[cpu]
                    },
                ),
                switches: s.switches.wrapping_add(1),
                ..s
            },
            Some((prev, next)),
        )
    }
}

/// The processor is off the stack of the thread it left.
pub open spec fn let_go(s: Sch, cpu: int) -> Sch {
    match s.cpus[cpu].handoff {
        None => s,
        Some((prev, blocking)) => {
            let p = s.threads[prev as int];
            Sch {
                ready: if !blocking && p.state == State::Ready && !p.is_idle {
                    s.ready.push(prev)
                } else {
                    s.ready
                },
                threads: s.threads.update(prev as int, Thread { running: false, ..p }),
                cpus: s.cpus.update(cpu, CpuSlot { handoff: None, ..s.cpus[cpu] }),
                ..s
            }
        },
    }
}

/// The processor's thread ends, and the next one runs.
pub open spec fn gone(s: Sch, cpu: int) -> (Sch, usize) {
    let prev = s.cpus[cpu].current->0;
    let (ready, next) = picked(s, cpu);
    (
        Sch {
            ready,
            threads: with_state(with_state(s.threads, prev, State::Exited), next, State::Running),
            cpus: s.cpus.update(
                cpu,
                CpuSlot { current: Some(next), handoff: Some((prev, true)), ..s.cpus[cpu] },
            ),
            graveyard: s.graveyard.push(prev),
            ..s
        },
        next,
    )
}

proof fn lemma_idle_same(a: Sch, b: Sch)
    requires
        a.cpus.len() == b.cpus.len(),
        forall|c: int| 0 <= c < a.cpus.len() ==> (#[trigger] a.cpus[c]).idle == b.cpus[c].idle,
    ensures
        forall|t: usize| is_idle_of(a, t) == is_idle_of(b, t),
{
    assert forall|t: usize| is_idle_of(a, t) == is_idle_of(b, t) by {
        if is_idle_of(a, t) {
            let c = choose|c: int| 0 <= c < a.cpus.len() && (#[trigger] a.cpus[c]).idle == Some(t);
            assert(b.cpus[c].idle == Some(t));
        }
        if is_idle_of(b, t) {
            let c = choose|c: int| 0 <= c < b.cpus.len() && (#[trigger] b.cpus[c]).idle == Some(t);
            assert(a.cpus[c].idle == Some(t));
        }
    }
}

/// A change to one thread that leaves its state and whether it is idle alone
/// leaves the books in order.
proof fn lemma_same_states(s: Sch, n: Sch)
    requires
        sound(s),
        n == (Sch { threads: n.threads, ..s }),
        n.threads.len() == s.threads.len(),
        forall|u: int|
            0 <= u < s.threads.len() ==> (#[trigger] n.threads[u]).state == s.threads[u].state
                && n.threads[u].is_idle == s.threads[u].is_idle,
    ensures
        sound(n),
{
    lemma_idle_same(s, n);
    assert forall|u: usize| is_current(n, u) == is_current(s, u) by {}
    assert forall|u: usize| is_leaving(n, u) == is_leaving(s, u) by {}
    assert(idle_known(n)) by {
        assert forall|u: usize|
            u < n.threads.len() && (#[trigger] n.threads[u as int]).is_idle implies is_idle_of(
            n,
            u,
        ) by {
            assert(s.threads[u as int].is_idle);
        }
    }
}

proof fn lemma_turned_idle(s: Sch, n: Sch, cpu: int)
    requires
        sound(s),
        can_switch(s, cpu),
        ({
            let prev = s.cpus[cpu].current->0;
            let (ready, next) = picked(s, cpu);
            &&& n.ready == ready
            &&& n.cpus.len() == s.cpus.len()
            &&& n.cpus[cpu].idle == s.cpus[cpu].idle
            &&& n.cpus[cpu].current == Some(next)
            &&& forall|c: int| 0 <= c < s.cpus.len() && c != cpu ==> #[trigger] n.cpus[c] == s.cpus[c]
            &&& n.threads.len() == s.threads.len()
            &&& forall|t: int|
                0 <= t < s.threads.len() && t != prev && t != next ==> #[trigger] n.threads[t]
                    == s.threads[t]
            &&& forall|t: int|
                0 <= t < s.threads.len() ==> (#[trigger] n.threads[t]).is_idle
                    == s.threads[t].is_idle
            &&& n.threads[next as int].state == State::Running
        }),
    ensures
        idle_sound(n),
{
    let prev = s.cpus[cpu].current->0;
    let (ready, next) = picked(s, cpu);
    assert forall|c: int| 0 <= c < s.cpus.len() implies (#[trigger] s.cpus[c]).idle
        == n.cpus[c].idle by {
        if c != cpu {
            assert(n.cpus[c] == s.cpus[c]);
        }
    }
    lemma_idle_same(s, n);
    assert forall|t: usize| #[trigger] is_idle_of(n, t) implies n.threads[t as int].is_idle by {
        assert(is_idle_of(s, t));
        let c = choose|c: int| 0 <= c < s.cpus.len() && (#[trigger] s.cpus[c]).idle == Some(t);
        assert(s.threads[t as int].is_idle);
        assert(t < s.threads.len());
    }
    assert forall|c: int, d: int|
        #![trigger n.cpus[c], n.cpus[d]]
        0 <= c < d < n.cpus.len() && n.cpus[c].idle is Some implies n.cpus[c].idle
        != n.cpus[d].idle by {
        assert(s.cpus[c].idle == n.cpus[c].idle && s.cpus[d].idle == n.cpus[d].idle);
    }
    assert forall|k: int| 0 <= k < n.ready.len() implies !is_idle_of(n, #[trigger] n.ready[k]) by {
        if s.ready.len() > 0 {
            assert(n.ready[k] == s.ready[k + 1]);
        }
    }
    assert forall|c: int|
        0 <= c < n.cpus.len() && (#[trigger] n.cpus[c]).current is Some && is_idle_of(
            n,
            n.cpus[c].current->0,
        ) implies n.cpus[c].idle == n.cpus[c].current && n.threads[n.cpus[c].current->0 as int].state
        == State::Running by {
        let t = n.cpus[c].current->0;
        assert(is_idle_of(s, t));
        if c == cpu {
            if s.ready.len() > 0 {
                assert(!is_idle_of(s, s.ready[0]));
            }
        } else {
            assert(n.cpus[c] == s.cpus[c]);
            assert(s.cpus[c].idle == Some(t));
            if t == prev {
                assert(s.cpus[cpu].idle == Some(t));
            }
            if t == next {
                if s.ready.len() > 0 {
                    assert(!is_idle_of(s, s.ready[0]));
                }
                assert(s.cpus[cpu].idle == Some(t));
            }
            if t == prev || t == next {
                if c < cpu {
                    assert(s.cpus[c].idle != s.cpus[cpu].idle);
                } else {
                    assert(s.cpus[cpu].idle != s.cpus[c].idle);
                }
            }
            assert(n.threads[t as int] == s.threads[t as int]);
        }
    }
}

/// What one processor's move from its thread to the next keeps: `ts` is the
/// table afterwards.
proof fn lemma_turned(s: Sch, n: Sch, cpu: int, awake: bool)
    requires
        sound(s),
        can_switch(s, cpu),
        ({
            let prev = s.cpus[cpu].current->0;
            let (ready, next) = picked(s, cpu);
            &&& n.ready == ready
            &&& n.graveyard == s.graveyard || n.graveyard == s.graveyard.push(prev)
            &&& n.cpus == s.cpus.update(
                cpu,
                CpuSlot {
                    current: Some(next),
                    handoff: Some((prev, !awake)),
                    ..s.cpus[cpu]
                },
            )
            &&& n.threads.len() == s.threads.len()
            &&& forall|t: int|
                0 <= t < s.threads.len() && t != prev && t != next ==> #[trigger] n.threads[t]
                    == s.threads[t]
            &&& forall|t: int|
                0 <= t < s.threads.len() ==> (#[trigger] n.threads[t]).is_idle
                    == s.threads[t].is_idle
            &&& n.threads[next as int].state == State::Running
            &&& awake ==> prev != next && (s.threads[prev as int].state == State::Running
                && !s.threads[prev as int].is_idle ==> n.threads[prev as int].state
                == State::Ready)
        }),
    ensures
        sound(n),
{
    let prev = s.cpus[cpu].current->0;
    let (ready, next) = picked(s, cpu);
    lemma_idle_same(s, n);
    lemma_turned_idle(s, n, cpu);
    assert(is_current(s, prev));
    if s.ready.len() > 0 {
        assert(s.ready[0] == next);
    } else {
        assert(is_idle_of(s, next));
    }
    assert forall|t: usize| is_current(n, t) implies t == next || exists|c: int|
        0 <= c < s.cpus.len() && c != cpu && (#[trigger] s.cpus[c]).current == Some(t) by {
        let c = choose|c: int| 0 <= c < n.cpus.len() && (#[trigger] n.cpus[c]).current == Some(t);
        if c != cpu {
            assert(n.cpus[c] == s.cpus[c]);
        }
    }
    assert forall|t: usize| is_leaving(n, t) implies t == prev && awake || is_leaving(s, t) by {
        let c = choose|c: int|
            0 <= c < n.cpus.len() && left_awake(#[trigger] n.cpus[c]) == Some(t);
        if c != cpu {
            assert(n.cpus[c] == s.cpus[c]);
        }
    }
    assert(named(n)) by {
        assert forall|k: int| 0 <= k < n.ready.len() implies (#[trigger] n.ready[k])
            < n.threads.len() by {
            if s.ready.len() > 0 {
                assert(n.ready[k] == s.ready[k + 1]);
            }
        }
        assert forall|k: int| 0 <= k < n.graveyard.len() implies (#[trigger] n.graveyard[k])
            < n.threads.len() by {
            if k < s.graveyard.len() {
                assert(n.graveyard[k] == s.graveyard[k]);
            }
        }
        assert forall|c: int| 0 <= c < n.cpus.len() implies {
            let p = #[trigger] n.cpus[c];
            &&& (p.current matches Some(t) ==> t < n.threads.len())
            &&& (p.idle matches Some(t) ==> t < n.threads.len())
            &&& (p.handoff matches Some((t, _)) ==> t < n.threads.len())
        } by {
            assert(s.cpus[c].idle == n.cpus[c].idle);
            assert(s.cpus[cpu].current == Some(prev));
        }
    }
    assert(idle_known(n)) by {
        assert forall|t: usize|
            t < n.threads.len() && (#[trigger] n.threads[t as int]).is_idle implies is_idle_of(
            n,
            t,
        ) by {
            assert(s.threads[t as int].is_idle);
        }
    }
    assert(queue_sound(n)) by {
        assert forall|k: int|
            #![trigger n.ready[k]]
            0 <= k < n.ready.len() implies n.threads[
        n.ready[k] as int].state == State::Ready && !is_current(n, n.ready[k]) && !is_leaving(
            n,
            n.ready[k],
        ) by {
            let t = n.ready[k];
            assert(s.ready[k + 1] == t);
            assert(t != prev);
            assert(t != next);
            assert(n.threads[t as int] == s.threads[t as int]);
            if is_current(n, t) {
                assert(is_current(s, t));
            }
        }
        assert forall|k: int, j: int|
            #![trigger n.ready[k], n.ready[j]]
            0 <= k < j < n.ready.len() implies n.ready[k]
            != n.ready[j] by {
            assert(s.ready[k + 1] == n.ready[k] && s.ready[j + 1] == n.ready[j]);
        }
    }
    assert(!is_idle_of(s, next) ==> !is_current(s, next) && !is_leaving(s, next));
    assert(!is_idle_of(s, prev) ==> !is_leaving(s, prev) && s.threads[prev as int].state
        == State::Running && !s.threads[prev as int].is_idle);
    assert forall|c: int|
        0 <= c < s.cpus.len() && c != cpu && (#[trigger] s.cpus[c]).current is Some && !is_idle_of(
            s,
            s.cpus[c].current->0,
        ) implies s.cpus[c].current->0 != prev && s.cpus[c].current->0 != next by {
        let t = s.cpus[c].current->0;
        assert(is_current(s, t));
        if t == prev {
            if c < cpu {
                assert(s.cpus[c].current == s.cpus[cpu].current);
            } else {
                assert(s.cpus[cpu].current == s.cpus[c].current);
            }
        }
    }
    assert(current_sound(n)) by {
        assert forall|c: int, d: int|
            #![trigger n.cpus[c], n.cpus[d]]
            0 <= c < d < n.cpus.len() && n.cpus[c].current is Some && n.cpus[c].current
                == n.cpus[d].current implies is_idle_of(n, n.cpus[c].current->0) by {
            if c != cpu {
                assert(n.cpus[c] == s.cpus[c]);
            }
            if d != cpu {
                assert(n.cpus[d] == s.cpus[d]);
            }
        }
        assert forall|c: int|
            #![trigger n.cpus[c]]
            0 <= c < n.cpus.len() && n.cpus[c].current is Some && !is_idle_of(
                n,
                n.cpus[c].current->0,
            ) implies n.threads[n.cpus[c].current->0 as int].state == State::Running
            && !is_leaving(n, n.cpus[c].current->0) by {
            if c != cpu {
                assert(n.cpus[c] == s.cpus[c]);
                let t = n.cpus[c].current->0;
                assert(n.threads[t as int] == s.threads[t as int]);
            }
        }
    }
    assert forall|c: int|
        0 <= c < s.cpus.len() && left_awake(#[trigger] s.cpus[c]) is Some && !is_idle_of(
            s,
            left_awake(s.cpus[c])->0,
        ) implies left_awake(s.cpus[c])->0 != prev && left_awake(s.cpus[c])->0 != next by {
        assert(is_leaving(s, left_awake(s.cpus[c])->0));
    }
    assert(leaving_sound(n)) by {
        assert forall|c: int, d: int|
            #![trigger n.cpus[c], n.cpus[d]]
            0 <= c < d < n.cpus.len() && left_awake(n.cpus[c]) is Some && left_awake(n.cpus[c])
                == left_awake(n.cpus[d]) implies is_idle_of(n, left_awake(n.cpus[c])->0) by {
            if c != cpu {
                assert(n.cpus[c] == s.cpus[c]);
            }
            if d != cpu {
                assert(n.cpus[d] == s.cpus[d]);
            }
        }
        assert forall|c: int|
            #![trigger n.cpus[c]]
            0 <= c < n.cpus.len() && left_awake(n.cpus[c]) is Some && !is_idle_of(
                n,
                left_awake(n.cpus[c])->0,
            ) implies n.threads[left_awake(n.cpus[c])->0 as int].state == State::Ready by {
            if c != cpu {
                assert(n.cpus[c] == s.cpus[c]);
                let t = left_awake(n.cpus[c])->0;
                assert(n.threads[t as int] == s.threads[t as int]);
            }
        }
    }
}

/// A switch keeps the books in agreement.
pub proof fn law_switch_keeps_order(s: Sch, cpu: int, block: bool)
    requires
        sound(s),
        can_switch(s, cpu),
    ensures
        sound(switched(s, cpu, block).0),
{
    let prev = s.cpus[cpu].current->0;
    let (ready, next) = picked(s, cpu);
    let n = switched(s, cpu, block).0;
    if prev == next {
        lemma_idle_same(s, n);
        assert forall|t: usize| is_current(n, t) == is_current(s, t) by {}
        assert forall|t: usize| is_leaving(n, t) == is_leaving(s, t) by {}
        assert forall|k: int| 0 <= k < n.ready.len() && s.ready.len() > 0 implies (
        #[trigger] n.ready[k]) == s.ready[k + 1] by {}
        assert(queue_sound(n)) by {
            assert forall|k: int, j: int|
                #![trigger n.ready[k], n.ready[j]]
                0 <= k < j < n.ready.len() implies n.ready[k]
                != n.ready[j] by {
                if s.ready.len() > 0 {
                    assert(s.ready[k + 1] == n.ready[k] && s.ready[j + 1] == n.ready[j]);
                }
            }
        }
        assert forall|t: usize|
            t < n.threads.len() && (#[trigger] n.threads[t as int]).is_idle implies is_idle_of(
            n,
            t,
        ) by {
            assert(s.threads[t as int].is_idle);
        }
    } else {
        lemma_turned(s, n, cpu, !block);
    }
}

/// So does the end of a thread.
pub proof fn law_exit_keeps_order(s: Sch, cpu: int)
    requires
        sound(s),
        can_switch(s, cpu),
    ensures
        sound(gone(s, cpu).0),
{
    lemma_turned(s, gone(s, cpu).0, cpu, false);
}

/// So does letting go of a thread: it enters the queue only once no processor
/// is on its stack.
pub proof fn law_letting_go_keeps_order(s: Sch, cpu: int)
    requires
        sound(s),
        0 <= cpu < s.cpus.len(),
    ensures
        sound(let_go(s, cpu)),
{
    let n = let_go(s, cpu);
    if s.cpus[cpu].handoff is Some {
        let (prev, blocking) = s.cpus[cpu].handoff->0;
        lemma_idle_same(s, n);
        assert forall|t: usize| is_current(n, t) == is_current(s, t) by {
            if is_current(s, t) {
                let c = choose|c: int|
                    0 <= c < s.cpus.len() && (#[trigger] s.cpus[c]).current == Some(t);
                assert(n.cpus[c].current == Some(t));
            }
            if is_current(n, t) {
                let c = choose|c: int|
                    0 <= c < n.cpus.len() && (#[trigger] n.cpus[c]).current == Some(t);
                assert(s.cpus[c].current == Some(t));
            }
        }
        assert forall|t: usize| is_leaving(n, t) implies is_leaving(s, t) by {
            let c = choose|c: int|
                0 <= c < n.cpus.len() && left_awake(#[trigger] n.cpus[c]) == Some(t);
            assert(n.cpus[c] == s.cpus[c]);
        }
        if !blocking && !is_idle_of(s, prev) {
            assert(left_awake(s.cpus[cpu]) == Some(prev));
            assert(is_leaving(s, prev));
            assert(!is_leaving(n, prev)) by {
                if is_leaving(n, prev) {
                    let c = choose|c: int|
                        0 <= c < n.cpus.len() && left_awake(#[trigger] n.cpus[c]) == Some(prev);
                    assert(c != cpu);
                    assert(left_awake(s.cpus[c]) == left_awake(s.cpus[cpu]));
                }
            }
            assert(!is_current(s, prev)) by {
                if is_current(s, prev) {
                    let c = choose|c: int|
                        0 <= c < s.cpus.len() && (#[trigger] s.cpus[c]).current == Some(prev);
                    assert(s.cpus[c].current->0 == prev);
                }
            }
        }
        assert forall|t: int| 0 <= t < s.threads.len() implies (#[trigger] n.threads[t]).state
            == s.threads[t].state && n.threads[t].is_idle == s.threads[t].is_idle by {}
        assert(named(n));
        assert(idle_known(n)) by {
            assert forall|t: usize|
                t < n.threads.len() && (#[trigger] n.threads[t as int]).is_idle implies is_idle_of(
                n,
                t,
            ) by {
                assert(s.threads[t as int].is_idle);
            }
        }
        assert(queue_sound(n)) by {
            assert forall|k: int|
                #![trigger n.ready[k]]
                0 <= k < n.ready.len() implies n.threads[
            n.ready[k] as int].state == State::Ready && !is_current(n, n.ready[k]) && !is_leaving(
                n,
                n.ready[k],
            ) by {
                if k < s.ready.len() {
                    assert(n.ready[k] == s.ready[k]);
                }
            }
            assert forall|k: int, j: int|
                #![trigger n.ready[k], n.ready[j]]
                0 <= k < j < n.ready.len() implies n.ready[k]
                != n.ready[j] by {
                assert(n.ready[k] == s.ready[k]);
                if j < s.ready.len() {
                    assert(n.ready[j] == s.ready[j]);
                }
            }
        }
        assert(current_sound(n)) by {
            assert forall|c: int| 0 <= c < n.cpus.len() implies (#[trigger] n.cpus[c]).current
                == s.cpus[c].current by {}
        }
        assert(leaving_sound(n)) by {
            assert forall|c: int|
                0 <= c < n.cpus.len() && left_awake(#[trigger] n.cpus[c]) is Some implies n.cpus[c]
                == s.cpus[c] by {}
        }
    }
}

/// A processor without a thread.
pub open spec fn bare() -> CpuSlot {
    CpuSlot { current: None, idle: None, handoff: None }
}

/// The id of a processor's idle thread.
pub open spec fn idle_id(cpu: u64) -> u64 {
    0xffff_0000u64 | cpu
}

pub fn idle_tid(cpu: u64) -> (r: u64)
    ensures
        r == idle_id(cpu),
{
    0xffff_0000u64 | cpu
}

/// A thread that adopts the stack it is found on.
pub open spec fn adopted(id: u64, is_idle: bool, cr3: u64) -> Thread {
    Thread {
        id,
        state: State::Running,
        is_idle,
        running: true,
        cr3,
        kstack_top: None,
        task: None,
        fsbase: 0,
        gsbase: 0,
    }
}

/// A thread on a fresh kernel stack.
pub open spec fn fresh(
    id: u64,
    cr3: u64,
    top: u64,
    task: Option<u64>,
    fsbase: u64,
    gsbase: u64,
) -> Thread {
    Thread {
        id,
        state: State::Ready,
        is_idle: false,
        running: false,
        cr3,
        kstack_top: Some(top),
        task,
        fsbase,
        gsbase,
    }
}

/// A new thread at the end of the table and of the ready queue.
pub open spec fn spawned(
    s: Sch,
    cr3: u64,
    top: u64,
    task: Option<u64>,
    fsbase: u64,
    gsbase: u64,
) -> Sch {
    Sch {
        ready: s.ready.push(s.threads.len() as usize),
        threads: s.threads.push(fresh(s.next_tid, cr3, top, task, fsbase, gsbase)),
        next_tid: s.next_tid.wrapping_add(1),
        ..s
    }
}

proof fn lemma_grown(s: Sch, n: Sch)
    requires
        sound(s),
        n.cpus == s.cpus,
        n.graveyard == s.graveyard,
        n.threads.len() == s.threads.len() + 1,
        n.threads.take(s.threads.len() as int) == s.threads,
        !n.threads.last().is_idle,
        n.threads.last().state == State::Ready,
        s.threads.len() <= usize::MAX,
        n.ready == s.ready.push(s.threads.len() as usize) || n.ready == s.ready,
    ensures
        sound(n),
{
    lemma_idle_same(s, n);
    let k = s.threads.len() as usize;
    assert forall|t: int| 0 <= t < s.threads.len() implies #[trigger] n.threads[t]
        == s.threads[t] by {
        assert(n.threads.take(s.threads.len() as int)[t] == s.threads[t]);
    }
    assert(!is_current(n, k)) by {
        if is_current(n, k) {
            let c = choose|c: int|
                0 <= c < n.cpus.len() && (#[trigger] n.cpus[c]).current == Some(k);
            assert(s.cpus[c].current == Some(k));
        }
    }
    assert(!is_leaving(n, k)) by {
        if is_leaving(n, k) {
            let c = choose|c: int|
                0 <= c < n.cpus.len() && left_awake(#[trigger] n.cpus[c]) == Some(k);
            assert(s.cpus[c].handoff == Some((k, false)));
        }
    }
    assert forall|t: usize| is_current(n, t) == is_current(s, t) by {}
    assert forall|t: usize| is_leaving(n, t) == is_leaving(s, t) by {}
    assert(idle_known(n)) by {
        assert forall|t: usize|
            t < n.threads.len() && (#[trigger] n.threads[t as int]).is_idle implies is_idle_of(
            n,
            t,
        ) by {
            assert(s.threads[t as int].is_idle);
        }
    }
    assert(named(n)) by {
        assert forall|j: int| 0 <= j < n.ready.len() implies (#[trigger] n.ready[j])
            < n.threads.len() by {
            if j < s.ready.len() {
                assert(n.ready[j] == s.ready[j]);
            }
        }
    }
    assert(queue_sound(n)) by {
        assert forall|j: int|
            #![trigger n.ready[j]]
            0 <= j < n.ready.len() implies n.threads[
        n.ready[j] as int].state == State::Ready && !is_current(n, n.ready[j]) && !is_leaving(
            n,
            n.ready[j],
        ) by {
            if j < s.ready.len() {
                assert(n.ready[j] == s.ready[j]);
            }
        }
        assert forall|i: int, j: int|
            #![trigger n.ready[i], n.ready[j]]
            0 <= i < j < n.ready.len() implies n.ready[i]
            != n.ready[j] by {
            assert(n.ready[i] == s.ready[i]);
            if j < s.ready.len() {
                assert(n.ready[j] == s.ready[j]);
            }
        }
    }
}

/// A blocked thread made ready.
pub open spec fn woken(s: Sch, t: usize) -> Sch {
    Sch {
        ready: s.ready.push(t),
        threads: with_state(s.threads, t, State::Ready),
        ..s
    }
}

/// Waking a blocked thread keeps the books in agreement.
pub proof fn law_waking_keeps_order(s: Sch, t: usize)
    requires
        sound(s),
        t < s.threads.len(),
        s.threads[t as int].state == State::Blocked,
        !s.threads[t as int].is_idle,
    ensures
        sound(woken(s, t)),
{
    let n = woken(s, t);
    lemma_idle_same(s, n);
    assert forall|u: usize| is_current(n, u) == is_current(s, u) by {}
    assert forall|u: usize| is_leaving(n, u) == is_leaving(s, u) by {}
    if !is_idle_of(s, t) {
        assert(!is_current(s, t)) by {
            if is_current(s, t) {
                let c = choose|c: int|
                    0 <= c < s.cpus.len() && (#[trigger] s.cpus[c]).current == Some(t);
                assert(s.cpus[c].current->0 == t);
            }
        }
        assert(!is_leaving(s, t)) by {
            if is_leaving(s, t) {
                let c = choose|c: int|
                    0 <= c < s.cpus.len() && left_awake(#[trigger] s.cpus[c]) == Some(t);
                assert(left_awake(s.cpus[c])->0 == t);
            }
        }
    }
    assert(named(n)) by {
        assert forall|j: int| 0 <= j < n.ready.len() implies (#[trigger] n.ready[j])
            < n.threads.len() by {
            if j < s.ready.len() {
                assert(n.ready[j] == s.ready[j]);
            }
        }
    }
    assert(idle_known(n)) by {
        assert forall|u: usize|
            u < n.threads.len() && (#[trigger] n.threads[u as int]).is_idle implies is_idle_of(
            n,
            u,
        ) by {
            assert(s.threads[u as int].is_idle);
        }
    }
    assert(queue_sound(n)) by {
        assert forall|j: int|
            #![trigger n.ready[j]]
            0 <= j < n.ready.len() implies n.threads[
        n.ready[j] as int].state == State::Ready && !is_current(n, n.ready[j]) && !is_leaving(
            n,
            n.ready[j],
        ) by {
            if j < s.ready.len() {
                assert(n.ready[j] == s.ready[j]);
            }
        }
        assert forall|i: int, j: int|
            #![trigger n.ready[i], n.ready[j]]
            0 <= i < j < n.ready.len() implies n.ready[i]
            != n.ready[j] by {
            assert(n.ready[i] == s.ready[i]);
            if j < s.ready.len() {
                assert(n.ready[j] == s.ready[j]);
            }
        }
    }
    assert(current_sound(n)) by {
        assert forall|c: int|
            #![trigger n.cpus[c]]
            0 <= c < n.cpus.len() && n.cpus[c].current is Some && !is_idle_of(
                n,
                n.cpus[c].current->0,
            ) implies n.threads[n.cpus[c].current->0 as int].state == State::Running
            && !is_leaving(n, n.cpus[c].current->0) by {
            assert(s.cpus[c].current is Some);
            assert(is_current(s, s.cpus[c].current->0));
        }
    }
}

/// A thread that is in the ready queue runs nowhere, and one that runs is on
/// one processor only.
pub proof fn law_no_thread_runs_twice(s: Sch, t: usize, c: int, d: int)
    requires
        sound(s),
        0 <= c < s.cpus.len(),
        0 <= d < s.cpus.len(),
        s.cpus[c].current == Some(t),
        s.cpus[d].current == Some(t),
    ensures
        c == d,
        !s.ready.contains(t),
        s.threads[t as int].state == State::Running,
{
    assert(s.cpus[c].current->0 == t);
    assert(is_current(s, t));
    if s.ready.contains(t) {
        let i = choose|i: int| 0 <= i < s.ready.len() && s.ready[i] == t;
        assert(s.ready[i] == t);
    }
    if c < d {
        assert(s.cpus[c].current == s.cpus[d].current);
        assert(s.cpus[c].idle is Some ==> s.cpus[c].idle != s.cpus[d].idle);
    } else if d < c {
        assert(s.cpus[d].current == s.cpus[c].current);
        assert(s.cpus[d].idle is Some ==> s.cpus[d].idle != s.cpus[c].idle);
    }
}

/// A switch that finds nothing else to run is that of a processor's own idle
/// thread, with an empty queue; and it changes nothing.
pub proof fn law_only_idleness_stays_put(s: Sch, cpu: int, block: bool)
    requires
        sound(s),
        can_switch(s, cpu),
        switched(s, cpu, block).1 is None,
    ensures
        s.cpus[cpu].current == s.cpus[cpu].idle,
        s.ready.len() == 0,
        switched(s, cpu, block).0 == s,
{
    let prev = s.cpus[cpu].current->0;
    assert(is_current(s, prev));
    if s.ready.len() > 0 {
        assert(!is_idle_of(s, s.ready[0]));
    }
}

/// The queue is served in order: whoever waits longest runs next.
pub proof fn law_first_come_first_served(s: Sch, cpu: int, block: bool)
    requires
        sound(s),
        can_switch(s, cpu),
        s.ready.len() > 0,
        s.cpus[cpu].current != Some(s.ready[0]),
    ensures
        switched(s, cpu, block).0.cpus[cpu].current == Some(s.ready[0]),
        switched(s, cpu, block).0.ready == s.ready.skip(1),
{
}

/// The graveyard from place `i` on without the threads that nobody is on and
/// nobody holds; the last one takes the place of one that goes.
pub open spec fn buried(g: Seq<usize>, i: int, threads: Seq<Thread>, held: Seq<bool>) -> Seq<usize>
    decreases g.len() - i,
{
    if i < 0 || i >= g.len() {
        g
    } else if !threads[g[i] as int].running && !(g[i] < held.len() && held[g[i] as int]) {
        buried(g.update(i, g.last()).drop_last(), i, threads, held)
    } else {
        buried(g, i + 1, threads, held)
    }
}

/// What a processor has to load before it runs a thread.
#[derive(Clone, Copy)]
pub struct CpuState {
    /// The page-table root, where it changes.
    pub cr3: Option<u64>,
    pub fsbase: u64,
    /// The user `gs` base, where it changes.
    pub gs: Option<u64>,
    pub kstack_top: Option<u64>,
}

/// Decide what to load for `t`; a thread without a `gs` base of its own gets
/// the per-processor block.
pub fn apply_cpu_state(t: &Thread, cr3: u64, user_gs: u64, percpu: u64) -> (r: CpuState)
    ensures
        r.cr3 == if t.cr3 == cr3 {
            None
        } else {
            Some(t.cr3)
        },
        r.fsbase == t.fsbase,
        ({
            let want = if t.gsbase != 0 {
                t.gsbase
            } else {
                percpu
            };
            r.gs == if want == user_gs {
                None
            } else {
                Some(want)
            }
        }),
        r.kstack_top == t.kstack_top,
{
    let want: u64 = if t.gsbase != 0 { t.gsbase } else { percpu };
    CpuState {
        cr3: if t.cr3 == cr3 { None } else { Some(t.cr3) },
        fsbase: t.fsbase,
        gs: if want == user_gs { None } else { Some(want) },
        kstack_top: t.kstack_top,
    }
}

/// A thread's first kernel stack: the words to place from `sp` up, so that the
/// first switch pops six registers and returns to `entry`; then `sp` and the
/// top.
pub fn build_stack(base: u64, entry: u64, r12: u64, r13: u64, r14: u64, r15: u64) -> (r: (
    [u64; 7],
    u64,
    u64,
))
    requires
        base + KSTACK_SIZE <= u64::MAX,
    ensures
        r.0@ == seq![r15, r14, r13, r12, 0u64, 0u64, entry],
        r.2 == crate::mm::down(base + KSTACK_SIZE, 16),
        r.1 == r.2 - 64,
        r.1 >= base,
        r.1 % 16 == 0,
{
    let top: u64 = crate::mm::align_down(base + KSTACK_SIZE, 16);
    let sp: u64 = top - 8 - 56;
    let w: [u64; 7] = [r15, r14, r13, r12, 0, 0, entry];
    assert(w@ =~= seq![r15, r14, r13, r12, 0u64, 0u64, entry]);
    (w, sp, top)
}

impl Sched {
    /// A machine with `cpus` processors and nothing running.
    pub fn new(cpus: usize) -> (r: Sched)
        ensures
            sound(r@),
            r@.ready.len() == 0,
            r@.threads.len() == 0,
            r@.graveyard.len() == 0,
            r@.cpus == Seq::new(cpus as nat, |i: int| bare()),
            r@.next_tid == 1,
            !r@.started,
            r@.switches == 0,
    {
        let mut v: Vec<CpuSlot> = Vec::new();
        let mut i: usize = 0;
        while i < cpus
            invariant
                i <= cpus,
                v@ == Seq::new(i as nat, |j: int| bare()),
            decreases cpus - i,
        {
            v.push(CpuSlot { current: None, idle: None, handoff: None });
            i = i + 1;
            assert(v@ =~= Seq::new(i as nat, |j: int| bare()));
        }
        Sched {
            ready: Vec::new(),
            threads: Vec::new(),
            cpus: v,
            graveyard: Vec::new(),
            next_tid: 1,
            started: false,
            switches: 0,
        }
    }

    /// How many switches there have been.
    pub fn ctx_switches(&self) -> (r: u64)
        ensures
            r == self@.switches,
    {
        self.switches
    }

    pub fn is_started(&self) -> (r: bool)
        ensures
            r == self@.started,
    {
        self.started
    }

    /// The thread that runs on a processor.
    pub fn current(&self, cpu: usize) -> (r: Option<Thread>)
        requires
            sound(self@),
            cpu < self@.cpus.len(),
        ensures
            r == match self@.cpus[cpu as int].current {
                Some(t) => Some(self@.threads[t as int]),
                None => None,
            },
    {
        match self.cpus[cpu].current {
            Some(t) => Some(self.threads[t]),
            None => None,
        }
    }

    /// Thread `t` of the table.
    pub fn thread(&self, t: usize) -> (r: Thread)
        requires
            t < self@.threads.len(),
        ensures
            r == self@.threads[t as int],
    {
        self.threads[t]
    }

    /// The process of the thread that runs on a processor, if it is a user
    /// thread.
    pub fn current_proc(&self, cpu: usize) -> (r: Option<u64>)
        requires
            sound(self@),
            cpu < self@.cpus.len(),
        ensures
            r == match self@.cpus[cpu as int].current {
                Some(t) => self@.threads[t as int].task,
                None => None,
            },
    {
        match self.cpus[cpu].current {
            Some(t) => self.threads[t].task,
            None => None,
        }
    }

    /// Turn the running program into thread 0 of the first processor, give it
    /// an idle thread on the stack that ends at `top`, and start scheduling.
    pub fn init_bsp(&mut self, cr3: u64, top: u64)
        requires
            sound(old(self)@),
            old(self)@.threads.len() == 0,
            old(self)@.cpus.len() > 0,
            old(self)@.cpus[0] == bare(),
        ensures
            sound(final(self)@),
            final(self)@ == (Sch {
                threads: seq![
                    adopted(0, false, cr3),
                    Thread { is_idle: true, ..fresh(idle_id(0), cr3, top, None, 0, 0) },
                ],
                cpus: old(self)@.cpus.update(
                    0,
                    CpuSlot { current: Some(0), idle: Some(1), handoff: None },
                ),
                started: true,
                ..old(self)@
            }),
    {
        let ghost s = self@;
        self.threads.push(
            Thread {
                id: 0,
                state: State::Running,
                is_idle: false,
                running: true,
                cr3,
                kstack_top: None,
                task: None,
                fsbase: 0,
                gsbase: 0,
            },
        );
        self.threads.push(
            Thread {
                id: idle_tid(0),
                state: State::Ready,
                is_idle: true,
                running: false,
                cr3,
                kstack_top: Some(top),
                task: None,
                fsbase: 0,
                gsbase: 0,
            },
        );
        self.cpus.set(0, CpuSlot { current: Some(0), idle: Some(1), handoff: None });
        self.started = true;
        proof {
            let n = self@;
            assert(n.threads =~= seq![
                adopted(0, false, cr3),
                Thread { is_idle: true, ..fresh(idle_id(0), cr3, top, None, 0, 0) },
            ]);
            assert(n.cpus[0].idle == Some(1usize));
            assert(is_idle_of(n, 1));
            assert forall|c: int| 0 < c < n.cpus.len() implies #[trigger] n.cpus[c]
                == s.cpus[c] by {}
            assert forall|c: int| 0 < c < n.cpus.len() implies (#[trigger] s.cpus[c]).current
                is None && s.cpus[c].handoff is None && s.cpus[c].idle is None by {
                assert(named(s));
            }
            assert forall|t: usize| is_leaving(n, t) implies false by {
                let c = choose|c: int|
                    0 <= c < n.cpus.len() && left_awake(#[trigger] n.cpus[c]) == Some(t);
                assert(n.cpus[c].handoff is None);
            }
            assert(n.ready.len() == 0) by {
                if s.ready.len() > 0 {
                    assert(s.ready[0] < s.threads.len());
                }
            }
            assert(n.graveyard.len() == 0) by {
                if s.graveyard.len() > 0 {
                    assert(s.graveyard[0] < s.threads.len());
                }
            }
        }
    }

    /// Turn what runs on another processor into its idle thread.
    pub fn cpu_enter(&mut self, cpu: usize, cr3: u64)
        requires
            sound(old(self)@),
            cpu < old(self)@.cpus.len(),
            old(self)@.cpus[cpu as int] == bare(),
        ensures
            sound(final(self)@),
            ({
                let s = old(self)@;
                let me = s.threads.len() as usize;
                final(self)@ == (Sch {
                    threads: s.threads.push(adopted(idle_id(cpu as u64), true, cr3)),
                    cpus: s.cpus.update(
                        cpu as int,
                        CpuSlot { current: Some(me), idle: Some(me), handoff: None },
                    ),
                    ..s
                })
            }),
    {
        let ghost s = self@;
        let me: usize = self.threads.len();
        self.threads.push(
            Thread {
                id: idle_tid(cpu as u64),
                state: State::Running,
                is_idle: true,
                running: true,
                cr3,
                kstack_top: None,
                task: None,
                fsbase: 0,
                gsbase: 0,
            },
        );
        self.cpus.set(cpu, CpuSlot { current: Some(me), idle: Some(me), handoff: None });
        proof {
            let n = self@;
            assert(n.cpus[cpu as int].idle == Some(me));
            assert(is_idle_of(n, me));
            assert forall|t: usize| t != me implies is_idle_of(n, t) == is_idle_of(s, t) by {
                if is_idle_of(s, t) {
                    let c = choose|c: int|
                        0 <= c < s.cpus.len() && (#[trigger] s.cpus[c]).idle == Some(t);
                    assert(n.cpus[c].idle == Some(t));
                }
                if is_idle_of(n, t) {
                    let c = choose|c: int|
                        0 <= c < n.cpus.len() && (#[trigger] n.cpus[c]).idle == Some(t);
                    assert(s.cpus[c].idle == Some(t));
                }
            }
            assert forall|t: usize| t != me implies is_current(n, t) == is_current(s, t) by {
                if is_current(s, t) {
                    let c = choose|c: int|
                        0 <= c < s.cpus.len() && (#[trigger] s.cpus[c]).current == Some(t);
                    assert(n.cpus[c].current == Some(t));
                }
                if is_current(n, t) {
                    let c = choose|c: int|
                        0 <= c < n.cpus.len() && (#[trigger] n.cpus[c]).current == Some(t);
                    assert(s.cpus[c].current == Some(t));
                }
            }
            assert forall|t: usize| is_leaving(n, t) implies is_leaving(s, t) by {
                let c = choose|c: int|
                    0 <= c < n.cpus.len() && left_awake(#[trigger] n.cpus[c]) == Some(t);
                assert(n.cpus[c] == s.cpus[c]);
            }
            assert(idle_known(n)) by {
                assert forall|t: usize|
                    t < n.threads.len() && (
                    #[trigger] n.threads[t as int]).is_idle implies is_idle_of(n, t) by {
                    if t != me {
                        assert(s.threads[t as int].is_idle);
                    }
                }
            }
            assert(queue_sound(n)) by {
                assert forall|k: int|
                    #![trigger n.ready[k]]
                    0 <= k < n.ready.len() implies n.threads[
                n.ready[k] as int].state == State::Ready && !is_current(n, n.ready[k])
                    && !is_leaving(n, n.ready[k]) by {
                    assert(s.ready[k] < s.threads.len());
                }
            }
            assert(current_sound(n)) by {
                assert forall|c: int| 0 <= c < n.cpus.len() && c != cpu implies #[trigger] n.cpus[c]
                    == s.cpus[c] by {}
            }
            assert(leaving_sound(n)) by {
                assert forall|c: int| 0 <= c < n.cpus.len() && c != cpu implies #[trigger] n.cpus[c]
                    == s.cpus[c] by {}
            }
        }
    }

    fn add(
        &mut self,
        cr3: u64,
        top: u64,
        task: Option<u64>,
        fsbase: u64,
        gsbase: u64,
    ) -> (id: u64)
        requires
            sound(old(self)@),
        ensures
            sound(final(self)@),
            id == old(self)@.next_tid,
            final(self)@ == spawned(old(self)@, cr3, top, task, fsbase, gsbase),
    {
        let ghost s = self@;
        let id: u64 = self.next_tid;
        self.next_tid = id.wrapping_add(1);
        let me: usize = self.threads.len();
        self.threads.push(
            Thread {
                id,
                state: State::Ready,
                is_idle: false,
                running: false,
                cr3,
                kstack_top: Some(top),
                task,
                fsbase,
                gsbase,
            },
        );
        self.ready.push(me);
        proof {
            assert(self@.threads.take(s.threads.len() as int) =~= s.threads);
            lemma_grown(s, self@);
        }
        id
    }

    /// Make a kernel thread, on the stack that ends at `top`.
    pub fn spawn(&mut self, cr3: u64, top: u64) -> (id: u64)
        requires
            sound(old(self)@),
        ensures
            sound(final(self)@),
            id == old(self)@.next_tid,
            final(self)@ == spawned(old(self)@, cr3, top, None, 0, 0),
    {
        self.add(cr3, top, None, 0, 0)
    }

    /// Make a user thread of process `pid`.
    pub fn spawn_user(&mut self, pid: u64, cr3: u64, top: u64) -> (id: u64)
        requires
            sound(old(self)@),
        ensures
            sound(final(self)@),
            id == old(self)@.next_tid,
            final(self)@ == spawned(old(self)@, cr3, top, Some(pid), 0, 0),
    {
        self.add(cr3, top, Some(pid), 0, 0)
    }

    /// Make a user thread with a `gs` base of its own.
    pub fn spawn_user_pe(&mut self, pid: u64, cr3: u64, top: u64, teb: u64) -> (id: u64)
        requires
            sound(old(self)@),
        ensures
            sound(final(self)@),
            id == old(self)@.next_tid,
            final(self)@ == spawned(old(self)@, cr3, top, Some(pid), 0, teb),
    {
        self.add(cr3, top, Some(pid), 0, teb)
    }

    /// Make a user thread that goes on from saved registers.
    pub fn spawn_user_frame(&mut self, pid: u64, cr3: u64, top: u64, fsbase: u64) -> (id: u64)
        requires
            sound(old(self)@),
        ensures
            sound(final(self)@),
            id == old(self)@.next_tid,
            final(self)@ == spawned(old(self)@, cr3, top, Some(pid), fsbase, 0),
    {
        self.add(cr3, top, Some(pid), fsbase, 0)
    }

    fn pick_next(&mut self, cpu: usize) -> (t: usize)
        requires
            sound(old(self)@),
            can_switch(old(self)@, cpu as int),
        ensures
            (final(self)@.ready, t) == picked(old(self)@, cpu as int),
            final(self)@ == (Sch { ready: final(self)@.ready, ..old(self)@ }),
            t < old(self)@.threads.len(),
    {
        if self.ready.len() > 0 {
            let t: usize = self.ready.remove(0);
            assert(self.ready@ =~= old(self)@.ready.skip(1));
            assert(old(self)@.ready[0] == t);
            t
        } else {
            match self.cpus[cpu].idle {
                Some(t) => t,
                None => 0,
            }
        }
    }

    /// Turn to the next thread: which thread was left for which, where it is
    /// another one.
    pub fn reschedule(&mut self, cpu: usize, block: bool) -> (r: Option<(usize, usize)>)
        requires
            sound(old(self)@),
            can_switch(old(self)@, cpu as int),
        ensures
            sound(final(self)@),
            (final(self)@, r) == switched(old(self)@, cpu as int, block),
    {
        proof {
            law_switch_keeps_order(self@, cpu as int, block);
        }
        let prev: usize = match self.cpus[cpu].current {
            Some(t) => t,
            None => 0,
        };
        let next: usize = self.pick_next(cpu);
        if prev == next {
            return None;
        }
        let mut p: Thread = self.threads[prev];
        if block {
            p.state = State::Blocked;
        } else if p.state == State::Running && !p.is_idle {
            p.state = State::Ready;
        }
        self.threads.set(prev, p);
        let mut q: Thread = self.threads[next];
        q.state = State::Running;
        self.threads.set(next, q);
        let mut slot: CpuSlot = self.cpus[cpu];
        slot.current = Some(next);
        slot.handoff = Some((prev, block));
        self.cpus.set(cpu, slot);
        self.switches = self.switches.wrapping_add(1);
        assert(self@ =~= switched(old(self)@, cpu as int, block).0);
        Some((prev, next))
    }

    /// The timer makes the running thread give up the processor; nothing
    /// happens before scheduling has started.
    pub fn on_tick(&mut self, cpu: usize) -> (r: Option<(usize, usize)>)
        requires
            sound(old(self)@),
            old(self)@.started ==> can_switch(old(self)@, cpu as int),
        ensures
            sound(final(self)@),
            (final(self)@, r) == if old(self)@.started {
                switched(old(self)@, cpu as int, false)
            } else {
                (old(self)@, None)
            },
    {
        if !self.started {
            return None;
        }
        self.reschedule(cpu, false)
    }

    /// Give up the processor.
    pub fn yield_now(&mut self, cpu: usize) -> (r: Option<(usize, usize)>)
        requires
            sound(old(self)@),
            old(self)@.started ==> can_switch(old(self)@, cpu as int),
        ensures
            sound(final(self)@),
            (final(self)@, r) == if old(self)@.started {
                switched(old(self)@, cpu as int, false)
            } else {
                (old(self)@, None)
            },
    {
        if !self.started {
            return None;
        }
        self.reschedule(cpu, false)
    }

    /// Give thread `t` another page-table root and `fs` base, as a replaced
    /// image does.
    pub fn repoint(&mut self, t: usize, cr3: u64, fsbase: u64)
        requires
            sound(old(self)@),
            t < old(self)@.threads.len(),
        ensures
            sound(final(self)@),
            final(self)@ == (Sch {
                threads: old(self)@.threads.update(
                    t as int,
                    Thread { cr3, fsbase, ..old(self)@.threads[t as int] },
                ),
                ..old(self)@
            }),
    {
        let ghost s = self@;
        let mut p: Thread = self.threads[t];
        p.set_cr3(cr3);
        p.set_fsbase(fsbase);
        self.threads.set(t, p);
        proof {
            lemma_same_states(s, self@);
        }
    }

    /// Put the running thread to sleep.
    pub fn block_current(&mut self, cpu: usize) -> (r: Option<(usize, usize)>)
        requires
            sound(old(self)@),
            can_switch(old(self)@, cpu as int),
        ensures
            sound(final(self)@),
            (final(self)@, r) == switched(old(self)@, cpu as int, true),
    {
        self.reschedule(cpu, true)
    }

    /// Wake a blocked thread. An idle thread never sleeps.
    pub fn unblock(&mut self, t: usize)
        requires
            sound(old(self)@),
            t < old(self)@.threads.len(),
            old(self)@.threads[t as int].state == State::Blocked,
            !old(self)@.threads[t as int].is_idle,
        ensures
            sound(final(self)@),
            final(self)@ == woken(old(self)@, t),
    {
        proof {
            law_waking_keeps_order(self@, t);
        }
        let mut p: Thread = self.threads[t];
        p.state = State::Ready;
        self.threads.set(t, p);
        self.ready.push(t);
        assert(self@ =~= woken(old(self)@, t));
    }

    /// Try to take a thread's stack; false while another processor is on it.
    pub fn claim(&mut self, t: usize) -> (ok: bool)
        requires
            sound(old(self)@),
            t < old(self)@.threads.len(),
        ensures
            sound(final(self)@),
            ok == !old(self)@.threads[t as int].running,
            final(self)@ == (Sch {
                threads: old(self)@.threads.update(
                    t as int,
                    Thread { running: true, ..old(self)@.threads[t as int] },
                ),
                ..old(self)@
            }),
    {
        let ghost s = self@;
        let mut p: Thread = self.threads[t];
        let ok: bool = !p.running;
        p.running = true;
        self.threads.set(t, p);
        proof {
            lemma_same_states(s, self@);
        }
        ok
    }

    /// Let go of the thread the processor has left.
    pub fn finish_switch(&mut self, cpu: usize)
        requires
            sound(old(self)@),
            cpu < old(self)@.cpus.len(),
        ensures
            sound(final(self)@),
            final(self)@ == let_go(old(self)@, cpu as int),
    {
        proof {
            law_letting_go_keeps_order(self@, cpu as int);
        }
        let slot: CpuSlot = self.cpus[cpu];
        match slot.handoff {
            None => {},
            Some((prev, blocking)) => {
                let mut p: Thread = self.threads[prev];
                if !blocking && p.state == State::Ready && !p.is_idle {
                    self.ready.push(prev);
                }
                p.running = false;
                self.threads.set(prev, p);
                self.cpus.set(
                    cpu,
                    CpuSlot { current: slot.current, idle: slot.idle, handoff: None },
                );
                assert(self@ =~= let_go(old(self)@, cpu as int));
            },
        }
    }

    /// End the running thread; the one to run next.
    pub fn exit(&mut self, cpu: usize) -> (next: usize)
        requires
            sound(old(self)@),
            can_switch(old(self)@, cpu as int),
        ensures
            sound(final(self)@),
            (final(self)@, next) == gone(old(self)@, cpu as int),
    {
        proof {
            law_exit_keeps_order(self@, cpu as int);
        }
        let prev: usize = match self.cpus[cpu].current {
            Some(t) => t,
            None => 0,
        };
        let next: usize = self.pick_next(cpu);
        let mut p: Thread = self.threads[prev];
        p.state = State::Exited;
        self.threads.set(prev, p);
        let mut q: Thread = self.threads[next];
        q.state = State::Running;
        self.threads.set(next, q);
        let mut slot: CpuSlot = self.cpus[cpu];
        slot.current = Some(next);
        slot.handoff = Some((prev, true));
        self.cpus.set(cpu, slot);
        self.graveyard.push(prev);
        assert(self@ =~= gone(old(self)@, cpu as int).0);
        next
    }

    /// Free the ended threads whose stacks nobody is on; `held` marks those
    /// that something still names.
    pub fn reap(&mut self, held: &[bool])
        requires
            sound(old(self)@),
        ensures
            sound(final(self)@),
            final(self)@ == (Sch {
                graveyard: buried(old(self)@.graveyard, 0, old(self)@.threads, held@),
                ..old(self)@
            }),
    {
        let ghost s = self@;
        let mut i: usize = 0;
        while i < self.graveyard.len()
            invariant
                i <= self.graveyard@.len(),
                s == old(self)@,
                sound(s),
                self@ == (Sch { graveyard: self@.graveyard, ..s }),
                forall|k: int|
                    0 <= k < self@.graveyard.len() ==> (#[trigger] self@.graveyard[k])
                        < s.threads.len(),
                buried(s.graveyard, 0, s.threads, held@) == buried(
                    self@.graveyard,
                    i as int,
                    s.threads,
                    held@,
                ),
            decreases self.graveyard@.len() - i,
        {
            let t: usize = self.graveyard[i];
            assert(self@.graveyard[i as int] < s.threads.len());
            let kept: bool = t < held.len() && held[t];
            if !self.threads[t].running && !kept {
                let ghost g = self@.graveyard;
                let n: usize = self.graveyard.len();
                let last: usize = self.graveyard[n - 1];
                assert(g[n - 1] < s.threads.len());
                self.graveyard.set(i, last);
                let _gone = self.graveyard.pop();
                proof {
                    assert(self@.graveyard =~= g.update(i as int, g.last()).drop_last());
                    assert forall|k: int| 0 <= k < self@.graveyard.len() implies (
                    #[trigger] self@.graveyard[k]) < s.threads.len() by {
                        if k != i {
                            assert(self@.graveyard[k] == g[k]);
                        }
                    }
                }
            } else {
                i = i + 1;
            }
        }
        proof {
            let n = self@;
            lemma_idle_same(s, n);
            assert forall|u: usize| is_current(n, u) == is_current(s, u) by {}
            assert forall|u: usize| is_leaving(n, u) == is_leaving(s, u) by {}
            assert(idle_known(n)) by {
                assert forall|u: usize|
                    u < n.threads.len() && (
                    #[trigger] n.threads[u as int]).is_idle implies is_idle_of(n, u) by {
                    assert(s.threads[u as int].is_idle);
                }
            }
        }
    }
}

} // verus!
