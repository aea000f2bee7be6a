//! A monotonic tick clock and the threads that sleep on it.
use vstd::prelude::*;

verus! {

/// The rate of the periodic timer.
pub const TICK_HZ: u64 = 100;

pub const NS_PER_TICK: u64 = 10_000_000;

/// Ticks since boot, and every sleeper with the tick it sleeps until.
pub struct Clock {
    ticks: u64,
    wheel: Vec<(u64, u64)>,
}

#[verifier::ext_equal]
pub struct Wheel {
    pub ticks: u64,
    pub sleepers: Seq<(u64, u64)>,
}

impl View for Clock {
    type V = Wheel;

    closed spec fn view(&self) -> Wheel {
        Wheel { ticks: self.ticks, sleepers: self.wheel@ }
    }
}

/// The list without entry `i`, the last entry in its place.
pub open spec fn without(w: Seq<(u64, u64)>, i: int) -> Seq<(u64, u64)> {
    w.update(i, w.last()).drop_last()
}

/// From entry `i` on, every sleeper whose deadline has come is taken out: what
/// stays, and the threads woken.
pub open spec fn expired(w: Seq<(u64, u64)>, i: int, now: u64, woken: Seq<u64>) -> (
    Seq<(u64, u64)>,
    Seq<u64>,
)
    decreases w.len() - i,
{
    if i >= w.len() || i < 0 {
        (w, woken)
    } else if w[i].0 <= now {
        expired(without(w, i), i, now, woken.push(w[i].1))
    } else {
        expired(w, i + 1, now, woken)
    }
}

/// The clock after a timer interrupt on processor `cpu`, and the threads woken.
pub open spec fn ticked(w: Wheel, cpu: int, started: bool) -> (Wheel, Seq<u64>) {
    if started && cpu == 0 {
        let now = (w.ticks + 1) as u64;
        let (left, woken) = expired(w.sleepers, 0, now, Seq::empty());
        (Wheel { ticks: now, sleepers: left }, woken)
    } else {
        (w, Seq::empty())
    }
}

/// The first entry of `tid` from place `k` on.
pub open spec fn sleeper(w: Seq<(u64, u64)>, tid: u64, k: int) -> Option<int>
    decreases w.len() - k,
{
    if k >= w.len() || k < 0 {
        None
    } else if w[k].1 == tid {
        Some(k)
    } else {
        sleeper(w, tid, k + 1)
    }
}

/// How many ticks a relative timeout of `rel` hundred-nanosecond units takes:
/// rounded up, at least one.
pub open spec fn ticks_of(rel: i64) -> int {
    let abs = if rel < 0 {
        -(rel as int)
    } else {
        rel as int
    };
    let ns = if abs * 100 > u64::MAX {
        u64::MAX as int
    } else {
        abs * 100
    };
    let t = (ns + 9_999_999) / 10_000_000;
    if t < 1 {
        1
    } else {
        t
    }
}

fn magnitude(rel: i64) -> (r: u64)
    ensures
        r == if rel < 0 {
            -(rel as int)
        } else {
            rel as int
        },
{
    if rel >= 0 {
        rel as u64
    } else if rel == i64::MIN {
        0x8000_0000_0000_0000
    } else {
        (-rel) as u64
    }
}

impl Clock {
    pub fn new() -> (r: Self)
        ensures
            r@ == (Wheel { ticks: 0, sleepers: Seq::empty() }),
    {
        Clock { ticks: 0, wheel: Vec::new() }
    }

    /// Ticks since boot.
    pub fn now(&self) -> (r: u64)
        ensures
            r == self@.ticks,
    {
        self.ticks
    }

    /// The tick at which a relative timeout ends; the last tick there is where
    /// the sum does not fit.
    pub fn deadline_from_relative_100ns(&self, rel: i64) -> (r: u64)
        ensures
            r == if self@.ticks + ticks_of(rel) > u64::MAX {
                u64::MAX as int
            } else {
                self@.ticks + ticks_of(rel)
            },
    {
        let abs: u64 = magnitude(rel);
        let ns: u64 = if abs > u64::MAX / 100 { u64::MAX } else { abs * 100 };
        let mut t: u64 = ns / NS_PER_TICK;
        if ns % NS_PER_TICK != 0 {
            t = t + 1;
        }
        if t < 1 {
            t = 1;
        }
        if t > u64::MAX - self.ticks {
            u64::MAX
        } else {
            self.ticks + t
        }
    }

    /// A timer interrupt on processor `cpu`. The first processor alone drives
    /// the clock, and only once threads are being scheduled; the threads whose
    /// deadline has come.
    pub fn tick(&mut self, cpu: usize, started: bool) -> (woken: Vec<u64>)
        requires
            started && cpu == 0 ==> old(self)@.ticks < u64::MAX,
        ensures
            (final(self)@, woken@) == ticked(old(self)@, cpu as int, started),
    {
        let none: Vec<u64> = Vec::new();
        if !started || cpu != 0 {
            assert(none@ =~= Seq::empty());
            return none;
        }
        self.advance()
    }

    fn advance(&mut self) -> (woken: Vec<u64>)
        requires
            old(self)@.ticks < u64::MAX,
        ensures
            ({
                let now = (old(self)@.ticks + 1) as u64;
                &&& final(self)@.ticks == now
                &&& (final(self)@.sleepers, woken@) == expired(
                    old(self)@.sleepers,
                    0,
                    now,
                    Seq::empty(),
                )
            }),
    {
        self.ticks = self.ticks + 1;
        let now: u64 = self.ticks;
        let mut woken: Vec<u64> = Vec::new();
        let mut i: usize = 0;
        let ghost start = self.wheel@;
        while i < self.wheel.len()
            invariant
                i <= self.wheel@.len(),
                self.ticks == now,
                expired(start, 0, now, Seq::empty()) == expired(
                    self.wheel@,
                    i as int,
                    now,
                    woken@,
                ),
            decreases self.wheel@.len() - i,
        {
            if self.wheel[i].0 <= now {
                let ghost before = self.wheel@;
                let n: usize = self.wheel.len();
                let last = self.wheel[n - 1];
                let e = self.wheel[i];
                self.wheel.set(i, last);
                let _l = self.wheel.pop();
                assert(self.wheel@ =~= without(before, i as int));
                woken.push(e.1);
            } else {
                i = i + 1;
            }
        }
        woken
    }

    /// Put a thread to sleep until `deadline`; `false` where that has come.
    pub fn sleep_until(&mut self, deadline: u64, tid: u64) -> (blocked: bool)
        ensures
            blocked == (old(self)@.ticks < deadline),
            final(self)@ == if blocked {
                (Wheel { sleepers: old(self)@.sleepers.push((deadline, tid)), ..old(self)@ })
            } else {
                old(self)@
            },
    {
        if self.ticks >= deadline {
            return false;
        }
        self.wheel.push((deadline, tid));
        true
    }

    /// A sleeper woke: drop its entry if one is left.
    pub fn wake(&mut self, tid: u64)
        ensures
            final(self)@ == match sleeper(old(self)@.sleepers, tid, 0) {
                Some(i) => (Wheel { sleepers: without(old(self)@.sleepers, i), ..old(self)@ }),
                None => old(self)@,
            },
    {
        let mut i: usize = 0;
        while i < self.wheel.len()
            invariant
                i <= self.wheel@.len(),
                *self == *old(self),
                sleeper(self.wheel@, tid, 0) == sleeper(self.wheel@, tid, i as int),
            decreases self.wheel@.len() - i,
        {
            if self.wheel[i].1 == tid {
                let n: usize = self.wheel.len();
                let last = self.wheel[n - 1];
                self.wheel.set(i, last);
                let _l = self.wheel.pop();
                assert(self.wheel@ =~= without(old(self).wheel@, i as int));
                return ;
            }
            i = i + 1;
        }
    }
}

/// Some entry of `w` is thread `t`'s, and its deadline has come.
pub open spec fn late(w: Seq<(u64, u64)>, now: u64, t: u64) -> bool {
    exists|j: int| 0 <= j < w.len() && (#[trigger] w[j]).0 <= now && w[j].1 == t
}

/// On any other processor, and before threads are scheduled, a timer interrupt
/// changes nothing and wakes nobody.
pub proof fn law_one_processor_drives_the_clock(w: Wheel, cpu: int, started: bool)
    requires
        !started || cpu != 0,
    ensures
        ticked(w, cpu, started) == (w, Seq::<u64>::empty()),
{
}

/// A relative timeout lasts as many ticks of ten milliseconds as it needs, one
/// at least and none more: a tick has 100,000 units of a hundred nanoseconds.
pub proof fn law_sleep_is_long_enough(units: i64)
    requires
        0 <= units <= u64::MAX / 100,
    ensures
        units <= ticks_of((-units) as i64) * 100_000,
        ticks_of((-units) as i64) == 1 || (ticks_of((-units) as i64) - 1) * 100_000 < units,
        ticks_of((-units) as i64) >= 1,
        ticks_of(units) == ticks_of((-units) as i64),
{
}

/// After a tick no sleeper is left whose deadline has come, the sleepers that
/// stay are among those that were there, and whoever was woken was late. Every
/// sleeper either stays or is woken once.
pub proof fn law_tick_wakes_the_late(w: Seq<(u64, u64)>, now: u64)
    ensures
        ({
            let (left, woken) = expired(w, 0, now, Seq::empty());
            &&& forall|j: int| 0 <= j < left.len() ==> (#[trigger] left[j]).0 > now
            &&& forall|j: int| 0 <= j < left.len() ==> w.contains(#[trigger] left[j])
            &&& forall|k: int| 0 <= k < woken.len() ==> late(w, now, #[trigger] woken[k])
            &&& forall|j: int|
                0 <= j < w.len() ==> if (#[trigger] w[j]).0 > now {
                    left.contains(w[j])
                } else {
                    woken.contains(w[j].1)
                }
            &&& left.len() + woken.len() == w.len()
        }),
{
    lemma_expired(w, w, 0, now, Seq::empty());
    lemma_none_lost(w, 0, now, Seq::empty());
}

proof fn lemma_none_lost(w: Seq<(u64, u64)>, i: int, now: u64, woken: Seq<u64>)
    requires
        0 <= i <= w.len(),
        forall|j: int| 0 <= j < i ==> (#[trigger] w[j]).0 > now,
    ensures
        ({
            let (left, out) = expired(w, i, now, woken);
            &&& forall|j: int|
                0 <= j < w.len() ==> if (#[trigger] w[j]).0 > now {
                    left.contains(w[j])
                } else {
                    out.contains(w[j].1)
                }
            &&& woken.len() <= out.len()
            &&& forall|k: int| 0 <= k < woken.len() ==> #[trigger] out[k] == woken[k]
            &&& left.len() + out.len() == w.len() + woken.len()
        }),
    decreases w.len() - i,
{
    let (left, out) = expired(w, i, now, woken);
    if i < w.len() {
        if w[i].0 <= now {
            let v = without(w, i);
            let more = woken.push(w[i].1);
            assert(v.len() == w.len() - 1);
            assert forall|j: int| 0 <= j < i implies (#[trigger] v[j]).0 > now by {
                assert(v[j] == w[j]);
            }
            lemma_none_lost(v, i, now, more);
            assert((left, out) == expired(v, i, now, more));
            assert(out[woken.len() as int] == more[woken.len() as int]);
            assert forall|k: int| 0 <= k < woken.len() implies #[trigger] out[k] == woken[k] by {
                assert(out[k] == more[k]);
            }
            assert forall|j: int| 0 <= j < w.len() implies if (#[trigger] w[j]).0 > now {
                left.contains(w[j])
            } else {
                out.contains(w[j].1)
            } by {
                if j == i {
                    assert(out[woken.len() as int] == w[i].1);
                } else if j < w.len() - 1 {
                    assert(v[j] == w[j]);
                } else {
                    assert(v[i] == w[j]);
                }
            }
        } else {
            lemma_none_lost(w, i + 1, now, woken);
        }
    } else {
        assert((left, out) == (w, woken));
        assert forall|j: int| 0 <= j < w.len() implies left.contains(#[trigger] w[j]) by {
            assert(left[j] == w[j]);
        }
    }
}

proof fn lemma_expired(all: Seq<(u64, u64)>, w: Seq<(u64, u64)>, i: int, now: u64, woken: Seq<u64>)
    requires
        0 <= i <= w.len(),
        forall|j: int| 0 <= j < i ==> (#[trigger] w[j]).0 > now,
        forall|j: int| 0 <= j < w.len() ==> all.contains(#[trigger] w[j]),
        forall|k: int| 0 <= k < woken.len() ==> late(all, now, #[trigger] woken[k]),
    ensures
        ({
            let (left, out) = expired(w, i, now, woken);
            &&& forall|j: int| 0 <= j < left.len() ==> (#[trigger] left[j]).0 > now
            &&& forall|j: int| 0 <= j < left.len() ==> all.contains(#[trigger] left[j])
            &&& forall|k: int| 0 <= k < out.len() ==> late(all, now, #[trigger] out[k])
        }),
    decreases w.len() - i,
{
    if i < w.len() {
        if w[i].0 <= now {
            let v = without(w, i);
            assert(v.len() == w.len() - 1);
            assert forall|j: int| 0 <= j < v.len() implies all.contains(#[trigger] v[j]) by {
                if j == i {
                    assert(v[j] == w[w.len() - 1]);
                } else {
                    assert(v[j] == w[j]);
                }
            }
            assert forall|j: int| 0 <= j < i implies (#[trigger] v[j]).0 > now by {
                assert(v[j] == w[j]);
            }
            let more = woken.push(w[i].1);
            assert(all.contains(w[i]));
            let at = choose|j: int| 0 <= j < all.len() && all[j] == w[i];
            assert(all[at].0 <= now && all[at].1 == w[i].1);
            assert(late(all, now, w[i].1));
            assert forall|k: int| 0 <= k < more.len() implies late(all, now, #[trigger] more[k]) by {
                if k < woken.len() {
                    assert(more[k] == woken[k]);
                }
            }
            lemma_expired(all, v, i, now, more);
            assert(expired(w, i, now, woken) == expired(v, i, now, more));
        } else {
            lemma_expired(all, w, i + 1, now, woken);
            assert(expired(w, i, now, woken) == expired(w, i + 1, now, woken));
        }
    } else {
        assert(expired(w, i, now, woken) == (w, woken));
    }
}

} // verus!
