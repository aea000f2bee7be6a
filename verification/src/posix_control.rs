//! What the calls that control descriptors do: `fcntl`, `ioctl` and `poll`.
use vstd::prelude::*;

use crate::bits;
use crate::bytes;
use crate::posix_io;
use crate::process;
use crate::spawn;
use crate::sys;
use crate::sys::{Caller, Outcome, Sv};
use crate::syscall;
use crate::syscall_fs::Pg;
use crate::task;
use crate::task::Tv;

verus! {

/// `fcntl` (72): what F_SETFD (2) sets is what F_GETFD (1) gives, and F_DUPFD
/// (0) duplicates to a free descriptor at or above the one asked for.
pub proof fn law_descriptor_flags_are_kept(c: Caller, d: Caller, t: Tv, s: Sv, p: Pg, q: Pg, id: int)
    requires
        c.frame.rax == 72,
        d.frame.rax == 72,
        d.frame.rdi == c.frame.rdi,
        d.frame.rsi == 1,
        posix_io::names_file(t, s, c.frame.rdi, id),
        t.fds.len() < 1024,
    ensures
        c.frame.rsi == 2 ==> (syscall::served(c, t, s, p) matches Some(
            (c2, t2, s2, p2, Outcome::Return(r)),
        ) && r == 0 && s2 == s && task::file_at(t2.fds, (c.frame.rdi as i32) as int) == Some(id) && (
        syscall::served(d, t2, s2, q) matches Some((c3, t3, s3, p3, Outcome::Return(v))) && v
            == if c.frame.rdx % 2 == 1 {
            1int
        } else {
            0
        } && t3 == t2)),
        c.frame.rsi == 0 && c.frame.rdx < 1024 ==> (syscall::served(c, t, s, p) matches Some(
            (c2, t2, s2, p2, Outcome::Return(r)),
        ) && r >= c.frame.rdx && task::obj_at(t.fds, r as int) is None && task::file_at(
            t2.fds,
            r as int,
        ) == Some(id)),
{
    let fd = (c.frame.rdi as i32) as int;
    let w = c.frame.rdx;
    bits::lemma_halves(w, 0, 0, 0);
    if c.frame.rsi == 0 && w < 1024 {
        assert(w as i32 == w);
        task::law_duplicate_names_the_same(t.fds, fd, w as int);
    }
}

/// The bytes `b` lie at `at`.
#[verifier::opaque]
pub open spec fn lies_at(m: Map<int, u8>, at: int, b: Seq<u8>) -> bool {
    process::peek(m, at, b.len()) == b
}

proof fn lemma_told(t: Tv, at: int, b: Seq<u8>)
    requires
        process::mapped(t.space.mem, at, b.len() as int),
    ensures
        task::poked(t, at, b) matches Some(u) && lies_at(u.space.mem, at, b),
{
    reveal(lies_at);
    posix_io::lemma_stored(t, at, b);
    process::law_stored_bytes_read_back(t.space.mem, at, b);
}

/// The window at `at`: so many rows, and so many columns.
pub open spec fn window_at(m: Map<int, u8>, at: int, rows: int, cols: int) -> bool {
    m[at] + 0x100 * m[at + 1] == rows && m[at + 2] + 0x100 * m[at + 3] == cols
}

proof fn lemma_window(m: Map<int, u8>, at: int)
    requires
        lies_at(
            m,
            at,
            bytes::bytes16(25) + bytes::bytes16(80) + bytes::bytes16(0) + bytes::bytes16(0),
        ),
    ensures
        window_at(m, at, 25, 80),
{
    reveal(lies_at);
    let b = process::peek(m, at, 8);
    assert(b[0] == m[at + 0] && b[1] == m[at + 1] && b[2] == m[at + 2] && b[3] == m[at + 3]);
    assert(b[0] == 25 && b[1] == 0 && b[2] == 80 && b[3] == 0);
}

/// `ioctl` (16) with TIOCGWINSZ (0x5413) tells of 25 rows of 80 columns.
#[verifier::spinoff_prover]
pub proof fn law_terminal_tells_its_size(c: Caller, t: Tv, s: Sv, p: Pg, id: int)
    requires
        c.frame.rax == 16,
        c.frame.rsi == 0x5413,
        posix_io::names_file(t, s, c.frame.rdi, id),
        process::mapped(t.space.mem, c.frame.rdx as int, 8),
    ensures
        syscall::served(c, t, s, p) matches Some((c2, t2, s2, p2, Outcome::Return(r))) && r == 0
            && window_at(t2.space.mem, c.frame.rdx as int, 25, 80),
{
    let at = c.frame.rdx as int;
    let w = bytes::bytes16(25) + bytes::bytes16(80) + bytes::bytes16(0) + bytes::bytes16(0);
    lemma_told(t, at, w);
    lemma_window(task::poked(t, at, w)->0.space.mem, at);
}

/// With TIOCGPGRP (0x540F) it tells the process id.
#[verifier::spinoff_prover]
pub proof fn law_terminal_tells_the_process(c: Caller, t: Tv, s: Sv, p: Pg, id: int)
    requires
        c.frame.rax == 16,
        c.frame.rsi == 0x540F,
        posix_io::names_file(t, s, c.frame.rdi, id),
        process::mapped(t.space.mem, c.frame.rdx as int, 4),
    ensures
        syscall::served(c, t, s, p) matches Some((c2, t2, s2, p2, Outcome::Return(r))) && r == 0
            && lies_at(t2.space.mem, c.frame.rdx as int, bytes::bytes32(t.pid as u32)),
{
    lemma_told(t, c.frame.rdx as int, bytes::bytes32(t.pid as u32));
}

/// Setting the terminal is taken, and what no terminal knows is refused; so is a
/// descriptor that is not open.
#[verifier::spinoff_prover]
pub proof fn law_terminal_takes_and_refuses(c: Caller, t: Tv, s: Sv, p: Pg, id: int)
    requires
        c.frame.rax == 16,
    ensures
        posix_io::names_file(t, s, c.frame.rdi, id) && (c.frame.rsi == 0x5402 || c.frame.rsi
            == 0x5403 || c.frame.rsi == 0x5404) ==> (syscall::served(c, t, s, p) matches Some(
            (c2, t2, s2, p2, Outcome::Return(r)),
        ) && r == 0 && t2 == t && s2 == s),
        posix_io::names_file(t, s, c.frame.rdi, id) && c.frame.rsi < 0x5401 ==> (syscall::served(
            c,
            t,
            s,
            p,
        ) matches Some((c2, t2, s2, p2, Outcome::Return(r))) && r == -25 && t2 == t && s2 == s),
        task::obj_at(t.fds, (c.frame.rdi as i32) as int) is None ==> (syscall::served(
            c,
            t,
            s,
            p,
        ) matches Some((c2, t2, s2, p2, Outcome::Return(r))) && r == -9 && t2 == t && s2 == s),
{
}

/// The descriptor in entry `k` of the list at `at`.
pub open spec fn listed_fd(m: Map<int, u8>, at: int, k: int) -> i32 {
    bytes::le32(process::peek(m, at + 8 * k, 4), 0) as i32
}

/// Entry `k` names no open file.
pub open spec fn is_refused(t: Tv, s: Sv, at: int, k: int) -> bool {
    sys::file_of(t, s, listed_fd(t.space.mem, at, k)) is None
}

/// How many of the entries from `i` to `n` name no open file.
pub open spec fn refused(t: Tv, s: Sv, at: int, i: int, n: int) -> int
    decreases n - i,
{
    if i >= n {
        0
    } else {
        refused(t, s, at, i + 1, n) + if is_refused(t, s, at, i) {
            1int
        } else {
            0
        }
    }
}

proof fn lemma_same_list(t: Tv, u: Tv, s: Sv, at: int, i: int, n: int)
    requires
        u.fds == t.fds,
        forall|k: int| i <= k < n ==> listed_fd(u.space.mem, at, k) == #[trigger] listed_fd(
            t.space.mem,
            at,
            k,
        ),
    ensures
        refused(u, s, at, i, n) == refused(t, s, at, i, n),
    decreases n - i,
{
    if i < n {
        assert(listed_fd(u.space.mem, at, i) == listed_fd(t.space.mem, at, i));
        lemma_same_list(t, u, s, at, i + 1, n);
    }
}

/// What `poll` leaves of an entry: its event mask stays, and its answer says
/// whether its descriptor is open.
pub open spec fn is_answered(m: Map<int, u8>, at: int, k: int, bad: bool) -> bool {
    m[at + 8 * k + 6] == (if bad {
        0x20u8
    } else {
        0
    }) && m[at + 8 * k + 7] == 0
}

#[verifier::spinoff_prover]
proof fn lemma_answered(t: Tv, at: int, i: int, n: int, bad: bool)
    requires
        0 <= i < n,
        process::mapped(t.space.mem, at, 8 * n),
    ensures
        ({
            let b = bytes::bytes16(
                if bad {
                    0x20
                } else {
                    0
                },
            );
            task::poked(t, at + (i * 8 + 6), b) matches Some(u) && u.fds == t.fds && is_answered(
                u.space.mem,
                at,
                i,
                bad,
            ) && process::mapped(u.space.mem, at, 8 * n) && (forall|k: int|
                0 <= k < n ==> listed_fd(u.space.mem, at, k) == #[trigger] listed_fd(
                    t.space.mem,
                    at,
                    k,
                )) && forall|x: int|
                !(at + 8 * i + 6 <= x < at + 8 * i + 8) && #[trigger] t.space.mem.contains_key(x)
                    ==> u.space.mem.contains_key(x) && u.space.mem[x] == t.space.mem[x]
        }),
{
    let b = bytes::bytes16(
        if bad {
            0x20
        } else {
            0
        },
    );
    let p = at + (i * 8 + 6);
    assert(p == at + 8 * i + 6);
    assert(process::mapped(t.space.mem, p, 2)) by {
        assert forall|x: int| p <= x < p + 2 implies #[trigger] t.space.mem.contains_key(x) by {}
    }
    posix_io::lemma_stored(t, p, b);
    let m = t.space.mem;
    let w = process::poke(m, p, b);
    assert(task::poked(t, p, b)->0.space.mem == w);
    assert forall|x: int| at <= x < at + 8 * n implies #[trigger] w.contains_key(x) by {
        assert(m.contains_key(x));
    }
    assert forall|x: int|
        !(at + 8 * i + 6 <= x < at + 8 * i + 8) && #[trigger] m.contains_key(x) implies w.contains_key(
        x,
    ) && w[x] == m[x] by {}
    assert(w[p] == b[0] && w[p + 1] == b[1]) by {
        assert(m.contains_key(p) && m.contains_key(p + 1));
    }
    assert forall|k: int| 0 <= k < n implies listed_fd(w, at, k) == #[trigger] listed_fd(m, at, k) by {
        assert forall|j: int| 0 <= j < 4 implies w[at + 8 * k + j] == #[trigger] m[at + 8 * k + j] by {
            assert(m.contains_key(at + 8 * k + j));
        }
        assert(process::peek(w, at + 8 * k, 4) =~= process::peek(m, at + 8 * k, 4));
    }
}

#[verifier::spinoff_prover]
proof fn lemma_polled(c: Caller, t: Tv, s: Sv, at: u64, n: u64, i: u64, ready: u64)
    requires
        i <= n,
        n < 0x1000_0000,
        ready <= i,
        process::mapped(t.space.mem, at as int, 8 * n),
    ensures
        syscall::polled(c, t, s, at, n, i, ready) matches Some((c2, u, s2, o)) && o
            == Outcome::Return((ready + refused(t, s, at as int, i as int, n as int)) as i64) && (
        forall|k: int|
            i <= k < n ==> #[trigger] is_answered(
                u.space.mem,
                at as int,
                k,
                is_refused(t, s, at as int, k),
            )) && (forall|x: int|
            x < at + 8 * i && #[trigger] t.space.mem.contains_key(x) ==> u.space.mem[x]
                == t.space.mem[x]),
        0 <= refused(t, s, at as int, i as int, n as int) <= n - i,
    decreases n - i,
{
    if i < n {
        let bad = is_refused(t, s, at as int, i as int);
        lemma_answered(t, at as int, i as int, n as int, bad);
        let b = bytes::bytes16(
            if bad {
                0x20
            } else {
                0
            },
        );
        let u = task::poked(t, at + (i * 8 + 6), b)->0;
        let next = if bad {
            (ready + 1) as u64
        } else {
            ready
        };
        assert(at + i * 8 == at + 8 * i);
        assert(process::mapped(t.space.mem, at + i * 8, 4)) by {
            assert forall|x: int| at + i * 8 <= x < at + i * 8 + 4 implies #[trigger] t.space.mem.contains_key(
            x) by {}
        }
        lemma_polled(c, u, s, at, n, (i + 1) as u64, next);
        lemma_same_list(t, u, s, at as int, i + 1, n as int);
        assert(syscall::polled(c, t, s, at, n, i, ready) == syscall::polled(
            c,
            u,
            s,
            at,
            n,
            (i + 1) as u64,
            next,
        ));
        let v = (syscall::polled(c, u, s, at, n, (i + 1) as u64, next)->0).1;
        assert forall|k: int| i <= k < n implies #[trigger] is_answered(
            v.space.mem,
            at as int,
            k,
            is_refused(t, s, at as int, k),
        ) by {
            if k == i {
                assert(u.space.mem.contains_key(at + 8 * i + 6));
                assert(u.space.mem.contains_key(at + 8 * i + 7));
            } else {
                assert(listed_fd(u.space.mem, at as int, k) == listed_fd(
                    t.space.mem,
                    at as int,
                    k,
                ));
                assert(is_answered(v.space.mem, at as int, k, is_refused(u, s, at as int, k)));
            }
        }
        assert forall|x: int|
            x < at + 8 * i && #[trigger] t.space.mem.contains_key(x) implies v.space.mem[x]
            == t.space.mem[x] by {
            assert(u.space.mem[x] == t.space.mem[x]);
            assert(u.space.mem.contains_key(x));
        }
    }
}

/// `poll` (7) answers each of its entries: a descriptor that is not open is
/// refused there, and the result counts those; no other descriptor has
/// anything to tell.
pub proof fn law_poll_answers_each_entry(c: Caller, t: Tv, s: Sv, p: Pg)
    requires
        c.frame.rax == 7,
        c.frame.rsi < 0x1000_0000,
        process::mapped(t.space.mem, c.frame.rdi as int, 8 * c.frame.rsi),
    ensures
        syscall::served(c, t, s, p) matches Some((c2, t2, s2, p2, Outcome::Return(r))) && r
            == refused(t, s, c.frame.rdi as int, 0, c.frame.rsi as int) && forall|k: int|
            0 <= k < c.frame.rsi ==> #[trigger] is_answered(
                t2.space.mem,
                c.frame.rdi as int,
                k,
                is_refused(t, s, c.frame.rdi as int, k),
            ),
{
    lemma_polled(c, t, s, c.frame.rdi, c.frame.rsi, 0, 0);
}

/// A program that replaces another keeps the descriptors that were not marked to
/// be closed, each with what it named, and has none of the others.
pub proof fn law_marked_descriptors_are_closed_on_exec(
    c: Caller,
    t: Tv,
    s: Sv,
    image: Seq<u8>,
    argv: Seq<Seq<u8>>,
    envp: Seq<Seq<u8>>,
    fd: int,
)
    requires
        spawn::execed(c, t, s, image, argv, envp).3 is Exec,
        task::obj_at(t.fds, fd) is Some,
    ensures
        task::cloexec_of(t.fds, fd) == 1 ==> task::obj_at(
            spawn::execed(c, t, s, image, argv, envp).1.fds,
            fd,
        ) is None,
        task::cloexec_of(t.fds, fd) == 0 ==> task::obj_at(
            spawn::execed(c, t, s, image, argv, envp).1.fds,
            fd,
        ) == task::obj_at(t.fds, fd),
        spawn::execed(c, t, s, image, argv, envp).1.pid == t.pid,
        spawn::execed(c, t, s, image, argv, envp).1.ppid == t.ppid,
        spawn::execed(c, t, s, image, argv, envp).1.cwd == t.cwd,
{
}

} // verus!
