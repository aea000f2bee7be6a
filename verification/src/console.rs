//! A line-disciplined console: HID keyboard reports in, bytes to read out,
//! with echo and backspace. The layout is German (QWERTZ, ISO); keys whose
//! character is not ASCII are ignored.
use vstd::prelude::*;

use crate::wait::WaitQueue;

verus! {

pub const ECHO_NORMAL: u8 = 0;

/// A star for every character, for passwords.
pub const ECHO_MASKED: u8 = 1;

pub const ECHO_NONE: u8 = 2;

/// What a key gives plain, shifted, and with AltGr; 0 is nothing.
pub open spec fn key_row(code: u8) -> (u8, u8, u8) {
    if code == 0x1C {
        (0x7A, 0x5A, 0)
    } else if code == 0x1D {
        (0x79, 0x59, 0)
    } else if code == 0x14 {
        (0x71, 0x51, 0x40)
    } else if 0x04 <= code && code <= 0x1D {
        ((0x61 + (code - 4)) as u8, (0x41 + (code - 4)) as u8, 0)
    } else if code == 0x1E {
        (0x31, 0x21, 0)
    } else if code == 0x1F {
        (0x32, 0x22, 0)
    } else if code == 0x20 {
        (0x33, 0, 0)
    } else if code == 0x21 {
        (0x34, 0x24, 0)
    } else if code == 0x22 {
        (0x35, 0x25, 0)
    } else if code == 0x23 {
        (0x36, 0x26, 0)
    } else if code == 0x24 {
        (0x37, 0x2F, 0x7B)
    } else if code == 0x25 {
        (0x38, 0x28, 0x5B)
    } else if code == 0x26 {
        (0x39, 0x29, 0x5D)
    } else if code == 0x27 {
        (0x30, 0x3D, 0x7D)
    } else if code == 0x2D {
        (0, 0x3F, 0x5C)
    } else if code == 0x2E {
        (0, 0, 0)
    } else if code == 0x28 {
        (0x0A, 0x0A, 0)
    } else if code == 0x2A {
        (0x08, 0x08, 0)
    } else if code == 0x2B {
        (0x09, 0x09, 0)
    } else if code == 0x2C {
        (0x20, 0x20, 0)
    } else if code == 0x2F {
        (0, 0, 0)
    } else if code == 0x30 {
        (0x2B, 0x2A, 0x7E)
    } else if code == 0x31 {
        (0x23, 0x27, 0)
    } else if code == 0x33 {
        (0, 0, 0)
    } else if code == 0x34 {
        (0, 0, 0)
    } else if code == 0x35 {
        (0, 0, 0)
    } else if code == 0x36 {
        (0x2C, 0x3B, 0)
    } else if code == 0x37 {
        (0x2E, 0x3A, 0)
    } else if code == 0x38 {
        (0x2D, 0x5F, 0)
    } else if code == 0x64 {
        (0x3C, 0x3E, 0x7C)
    } else {
        (0, 0, 0)
    }
}

/// The character of a key under its modifiers; 0 is nothing.
pub open spec fn key_char(code: u8, shift: bool, altgr: bool) -> u8 {
    let (lo, hi, ag) = key_row(code);
    if altgr {
        ag
    } else if shift {
        hi
    } else {
        lo
    }
}

fn row(code: u8) -> (r: (u8, u8, u8))
    ensures
        r == key_row(code),
{
    if code == 0x1C {
        (0x7A, 0x5A, 0)
    } else if code == 0x1D {
        (0x79, 0x59, 0)
    } else if code == 0x14 {
        (0x71, 0x51, 0x40)
    } else if 0x04 <= code && code <= 0x1D {
        (0x61 + (code - 4), 0x41 + (code - 4), 0)
    } else if code == 0x1E {
        (0x31, 0x21, 0)
    } else if code == 0x1F {
        (0x32, 0x22, 0)
    } else if code == 0x20 {
        (0x33, 0, 0)
    } else if code == 0x21 {
        (0x34, 0x24, 0)
    } else if code == 0x22 {
        (0x35, 0x25, 0)
    } else if code == 0x23 {
        (0x36, 0x26, 0)
    } else if code == 0x24 {
        (0x37, 0x2F, 0x7B)
    } else if code == 0x25 {
        (0x38, 0x28, 0x5B)
    } else if code == 0x26 {
        (0x39, 0x29, 0x5D)
    } else if code == 0x27 {
        (0x30, 0x3D, 0x7D)
    } else if code == 0x2D {
        (0, 0x3F, 0x5C)
    } else if code == 0x2E {
        (0, 0, 0)
    } else if code == 0x28 {
        (0x0A, 0x0A, 0)
    } else if code == 0x2A {
        (0x08, 0x08, 0)
    } else if code == 0x2B {
        (0x09, 0x09, 0)
    } else if code == 0x2C {
        (0x20, 0x20, 0)
    } else if code == 0x2F {
        (0, 0, 0)
    } else if code == 0x30 {
        (0x2B, 0x2A, 0x7E)
    } else if code == 0x31 {
        (0x23, 0x27, 0)
    } else if code == 0x33 {
        (0, 0, 0)
    } else if code == 0x34 {
        (0, 0, 0)
    } else if code == 0x35 {
        (0, 0, 0)
    } else if code == 0x36 {
        (0x2C, 0x3B, 0)
    } else if code == 0x37 {
        (0x2E, 0x3A, 0)
    } else if code == 0x38 {
        (0x2D, 0x5F, 0)
    } else if code == 0x64 {
        (0x3C, 0x3E, 0x7C)
    } else {
        (0, 0, 0)
    }
}

/// The ASCII character of a HID usage id; 0 is nothing.
pub fn ascii(code: u8, shift: bool, altgr: bool) -> (r: u8)
    ensures
        r == key_char(code, shift, altgr),
{
    let (lo, hi, ag) = row(code);
    if altgr {
        ag
    } else if shift {
        hi
    } else {
        lo
    }
}

/// The console's state.
pub struct Console {
    queue: Vec<u8>,
    prev: [u8; 6],
    /// Characters of the current line that no reader has taken yet, and that
    /// backspace may take back.
    line_len: u64,
    echo: u8,
    /// Threads that wait for something to read.
    waiters: WaitQueue,
}

#[verifier::ext_equal]
pub struct Con {
    pub queue: Seq<u8>,
    pub prev: Seq<u8>,
    pub line_len: int,
    pub echo: u8,
    pub waiters: Seq<u64>,
}

impl View for Console {
    type V = Con;

    closed spec fn view(&self) -> Con {
        Con {
            queue: self.queue@,
            prev: self.prev@,
            line_len: self.line_len as int,
            echo: self.echo,
            waiters: self.waiters@,
        }
    }
}

/// The console and the echo after character `c` was typed.
pub open spec fn typed(s: Con, out: Seq<u8>, c: u8) -> (Con, Seq<u8>) {
    if c == 8 {
        if s.line_len > 0 {
            (
                Con {
                    line_len: s.line_len - 1,
                    queue: if s.queue.len() > 0 {
                        s.queue.drop_last()
                    } else {
                        s.queue
                    },
                    ..s
                },
                if s.echo != 2 {
                    out + seq![8u8, 0x20, 8]
                } else {
                    out
                },
            )
        } else {
            (s, out)
        }
    } else {
        (
            Con {
                queue: s.queue.push(c),
                line_len: if c == 10 {
                    0
                } else {
                    s.line_len + 1
                },
                ..s
            },
            if s.echo == 2 {
                out
            } else if s.echo == 1 && c != 10 {
                out.push(0x2A)
            } else {
                out.push(c)
            },
        )
    }
}

/// The keys `[i, 6)` of a report obeyed: only keys that were not down before
/// act. The console, the echo, and whether a byte was queued.
pub open spec fn keys_fed(
    s: Con,
    out: Seq<u8>,
    pushed: bool,
    keys: Seq<u8>,
    shift: bool,
    altgr: bool,
    i: int,
) -> (Con, Seq<u8>, bool)
    decreases keys.len() - i,
{
    if i >= keys.len() {
        (s, out, pushed)
    } else {
        let k = keys[i];
        let c = key_char(k, shift, altgr);
        if k == 0 || s.prev.contains(k) || c == 0 {
            keys_fed(s, out, pushed, keys, shift, altgr, i + 1)
        } else {
            let (s2, out2) = typed(s, out, c);
            keys_fed(s2, out2, pushed || c != 8, keys, shift, altgr, i + 1)
        }
    }
}

/// One report: modifiers, a reserved byte, six keys. The console, the echo, and
/// the threads that are woken: all that wait, where a byte was queued.
pub open spec fn report_fed(s: Con, rpt: Seq<u8>) -> (Con, Seq<u8>, Seq<u64>) {
    let keys = rpt.subrange(2, 8);
    let (t, out, pushed) = keys_fed(
        s,
        Seq::empty(),
        false,
        keys,
        rpt[0] & 0x22 != 0,
        rpt[0] & 0x40 != 0,
        0,
    );
    if pushed {
        (Con { prev: keys, waiters: Seq::empty(), ..t }, out, t.waiters)
    } else {
        (Con { prev: keys, ..t }, out, Seq::empty())
    }
}

/// At most `n` bytes taken out: what is left of the current line is what is
/// left of it in the queue.
pub open spec fn taken(s: Con, n: int) -> (Con, Seq<u8>) {
    let k = if n <= s.queue.len() {
        n
    } else {
        s.queue.len() as int
    };
    let left = s.queue.len() - k;
    (
        Con {
            queue: s.queue.skip(k),
            line_len: if s.line_len <= left {
                s.line_len
            } else {
                left
            },
            ..s
        },
        s.queue.take(k),
    )
}

fn among(a: &[u8; 6], k: u8) -> (r: bool)
    ensures
        r == a@.contains(k),
{
    let mut i: usize = 0;
    while i < 6
        invariant
            i <= 6,
            a@.len() == 6,
            forall|j: int| 0 <= j < i ==> a@[j] != k,
        decreases 6 - i,
    {
        if a[i] == k {
            assert(a@[i as int] == k);
            return true;
        }
        i = i + 1;
    }
    false
}

impl Console {
    /// Nothing typed, characters echoed as they are.
    pub fn new() -> (r: Self)
        ensures
            r@ == (Con {
                queue: Seq::empty(),
                prev: seq![0u8, 0, 0, 0, 0, 0],
                line_len: 0,
                echo: 0,
                waiters: Seq::empty(),
            }),
    {
        let r = Console {
            queue: Vec::new(),
            prev: [0, 0, 0, 0, 0, 0],
            line_len: 0,
            echo: 0,
            waiters: WaitQueue::new(),
        };
        assert(r.prev@ =~= seq![0u8, 0, 0, 0, 0, 0]);
        r
    }

    /// How typed characters are echoed.
    pub fn set_echo(&mut self, mode: u8)
        ensures
            final(self)@ == (Con { echo: mode, ..old(self)@ }),
    {
        self.echo = mode;
    }

    fn put_key(&mut self, out: &mut Vec<u8>, c: u8)
        requires
            old(self)@.line_len < u64::MAX,
        ensures
            (final(self)@, final(out)@) == typed(old(self)@, old(out)@, c),
            final(self)@.line_len <= old(self)@.line_len + 1,
    {
        if c == 8 {
            if self.line_len > 0 {
                self.line_len = self.line_len - 1;
                let _b = self.queue.pop();
                if self.echo != 2 {
                    out.push(8);
                    out.push(0x20);
                    out.push(8);
                }
                assert(self@ =~= typed(old(self)@, old(out)@, c).0);
                assert(out@ =~= typed(old(self)@, old(out)@, c).1);
            }
        } else {
            self.queue.push(c);
            if c == 10 {
                self.line_len = 0;
            } else {
                self.line_len = self.line_len + 1;
            }
            if self.echo == 2 {
            } else if self.echo == 1 && c != 10 {
                out.push(0x2A);
            } else {
                out.push(c);
            }
        }
    }

    /// Feed one HID boot keyboard report: what to echo, and the threads to wake.
    pub fn feed_report(&mut self, rpt: &[u8; 8]) -> (r: (Vec<u8>, Vec<u64>))
        requires
            old(self)@.line_len + 6 <= u64::MAX,
        ensures
            (final(self)@, r.0@, r.1@) == report_fed(old(self)@, rpt@),
    {
        let shift: bool = rpt[0] & 0x22 != 0;
        let altgr: bool = rpt[0] & 0x40 != 0;
        let keys: [u8; 6] = [rpt[2], rpt[3], rpt[4], rpt[5], rpt[6], rpt[7]];
        assert(keys@ =~= rpt@.subrange(2, 8));
        let mut out: Vec<u8> = Vec::new();
        let mut pushed: bool = false;
        let ghost s0 = self@;
        let mut i: usize = 0;
        while i < 6
            invariant
                i <= 6,
                keys@.len() == 6,
                self@.line_len <= s0.line_len + i,
                s0.line_len + 6 <= u64::MAX,
                keys_fed(s0, Seq::empty(), false, keys@, shift, altgr, 0) == keys_fed(
                    self@,
                    out@,
                    pushed,
                    keys@,
                    shift,
                    altgr,
                    i as int,
                ),
            decreases 6 - i,
        {
            let k: u8 = keys[i];
            let c: u8 = ascii(k, shift, altgr);
            if k == 0 || among(&self.prev, k) || c == 0 {
            } else {
                self.put_key(&mut out, c);
                if c != 8 {
                    pushed = true;
                }
            }
            i = i + 1;
        }
        self.prev = keys;
        if pushed {
            let woken = self.waiters.wake_all();
            return (out, woken);
        }
        let none: Vec<u64> = Vec::new();
        assert(none@ =~= Seq::<u64>::empty());
        (out, none)
    }

    /// Take at most `n` bytes that were typed.
    pub fn read(&mut self, n: usize) -> (r: Vec<u8>)
        ensures
            (final(self)@, r@) == taken(old(self)@, n as int),
    {
        let len: usize = self.queue.len();
        let k: usize = if n <= len { n } else { len };
        let r = crate::bytes::sub(self.queue.as_slice(), 0, k);
        let rest = crate::bytes::sub(self.queue.as_slice(), k, len);
        assert(r@ =~= self.queue@.take(k as int));
        assert(rest@ =~= self.queue@.skip(k as int));
        self.queue = rest;
        if self.line_len > (len - k) as u64 {
            self.line_len = (len - k) as u64;
        }
        r
    }

    pub fn has_input(&self) -> (r: bool)
        ensures
            r == (self@.queue.len() > 0),
    {
        self.queue.len() > 0
    }

    /// Queue a thread until there is something to read; whether it was queued.
    pub fn wait_for_input(&mut self, tid: u64) -> (blocked: bool)
        ensures
            blocked == (old(self)@.queue.len() == 0),
            final(self)@ == if blocked {
                (Con { waiters: old(self)@.waiters.push(tid), ..old(self)@ })
            } else {
                old(self)@
            },
    {
        let empty: bool = !self.has_input();
        self.waiters.wait_if(empty, tid)
    }

    /// Queue a thread until the next byte is typed.
    pub(crate) fn wait_for_key(&mut self, tid: u64)
        ensures
            final(self)@ == (Con { waiters: old(self)@.waiters.push(tid), ..old(self)@ }),
    {
        self.waiters.wait(tid);
    }
}

/// What backspace can take back is always the end of what has been typed and
/// not read, whatever is typed or read.
pub proof fn law_line_is_not_read_yet(s: Con, out: Seq<u8>, c: u8, n: int)
    requires
        0 <= s.line_len <= s.queue.len(),
        0 <= n,
    ensures
        0 <= typed(s, out, c).0.line_len <= typed(s, out, c).0.queue.len(),
        0 <= taken(s, n).0.line_len <= taken(s, n).0.queue.len(),
        n >= s.queue.len() ==> typed(taken(s, n).0, out, 8) == (taken(s, n).0, out),
{
}

/// A key that gives a character wakes every thread that waits for input, and
/// leaves none waiting; no other report wakes anyone.
pub proof fn law_input_wakes_all(s: Con, rpt: Seq<u8>)
    requires
        rpt.len() == 8,
    ensures
        ({
            let (t, _, woken) = report_fed(s, rpt);
            &&& t.waiters + woken == s.waiters
            &&& woken.len() == 0 || t.waiters.len() == 0
            &&& t.queue.len() > s.queue.len() ==> t.waiters.len() == 0
        }),
{
    let keys = rpt.subrange(2, 8);
    let (shift, altgr) = (rpt[0] & 0x22 != 0, rpt[0] & 0x40 != 0);
    lemma_keys_keep_waiters(s, Seq::empty(), false, keys, shift, altgr, 0);
    let (t, _, woken) = report_fed(s, rpt);
    assert(t.waiters + woken =~= s.waiters);
}

proof fn lemma_keys_keep_waiters(
    s: Con,
    out: Seq<u8>,
    pushed: bool,
    keys: Seq<u8>,
    shift: bool,
    altgr: bool,
    i: int,
)
    ensures
        ({
            let (t, _, p) = keys_fed(s, out, pushed, keys, shift, altgr, i);
            &&& t.waiters == s.waiters
            &&& pushed ==> p
            &&& !p ==> t.queue.len() <= s.queue.len()
        }),
    decreases keys.len() - i,
{
    if i < keys.len() {
        let k = keys[i];
        let c = key_char(k, shift, altgr);
        if k == 0 || s.prev.contains(k) || c == 0 {
            lemma_keys_keep_waiters(s, out, pushed, keys, shift, altgr, i + 1);
        } else {
            let (s2, out2) = typed(s, out, c);
            lemma_keys_keep_waiters(s2, out2, pushed || c != 8, keys, shift, altgr, i + 1);
        }
    }
}

/// A key that stays down is typed once: feeding the same report again changes
/// nothing and echoes nothing.
pub proof fn law_held_keys_are_typed_once(s: Con, rpt: Seq<u8>)
    requires
        rpt.len() == 8,
        s.prev == rpt.subrange(2, 8),
    ensures
        report_fed(s, rpt) == (s, Seq::<u8>::empty(), Seq::<u64>::empty()),
{
    let keys = rpt.subrange(2, 8);
    lemma_held(s, keys, rpt[0] & 0x22 != 0, rpt[0] & 0x40 != 0, 0);
}

proof fn lemma_held(s: Con, keys: Seq<u8>, shift: bool, altgr: bool, i: int)
    requires
        s.prev == keys,
        0 <= i <= keys.len(),
    ensures
        keys_fed(s, Seq::empty(), false, keys, shift, altgr, i) == (s, Seq::<u8>::empty(), false),
    decreases keys.len() - i,
{
    if i < keys.len() {
        assert(s.prev.contains(keys[i]));
        lemma_held(s, keys, shift, altgr, i + 1);
    }
}

/// Backspace takes back the character typed just before it on the same line.
pub proof fn law_backspace_undoes_typing(s: Con, out: Seq<u8>, c: u8)
    requires
        c != 8,
        c != 10,
        s.line_len >= 0,
    ensures
        ({
            let (t, o) = typed(s, out, c);
            typed(t, o, 8).0 == s
        }),
{
    let (t, o) = typed(s, out, c);
    assert(t.queue.drop_last() =~= s.queue);
}

} // verus!
