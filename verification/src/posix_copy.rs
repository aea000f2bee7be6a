//! Copies that go through several buffers: `sendfile` from one descriptor to
//! another, and `writev` from many pieces of memory.
use vstd::prelude::*;

use crate::file;
use crate::file::Fv;
use crate::posix_io;
use crate::process;
use crate::sys;
use crate::sys::{Caller, Outcome, Sv};
use crate::syscall;
use crate::syscall_fs;
use crate::syscall_fs::{Pg, Sent};
use crate::task::Tv;

verus! {

/// What is left of `data` from `pos` on, but no more than `n` bytes.
pub open spec fn portion(data: Seq<u8>, pos: int, n: int) -> int {
    if pos >= data.len() || n <= 0 {
        0
    } else if n < data.len() - pos {
        n
    } else {
        data.len() - pos
    }
}

/// The bytes of that portion.
pub open spec fn part(data: Seq<u8>, pos: int, n: int) -> Seq<u8> {
    Seq::new(portion(data, pos, n) as nat, |i: int| data[pos + i])
}

proof fn lemma_copied(
    s: Sv,
    src: int,
    dst: int,
    count: u64,
    total: u64,
    data: Seq<u8>,
    pos: int,
)
    requires
        0 <= src < s.files.files.len(),
        0 <= dst < s.files.files.len(),
        src != dst,
        0 <= pos,
        s.files.files[src] == Fv::Mem(data, pos),
        s.files.files[dst] == Fv::Console(true),
        total <= count,
    ensures
        ({
            let n = portion(data, pos, count - total);
            syscall_fs::copied(s, src, dst, count, total) matches Some((s2, Sent::Total(k))) && k
                == total + n && s2.out == s.out + part(data, pos, count - total) && s2.files.files
                == s.files.files.update(src, Fv::Mem(data, pos + n)) && s2.con == s.con
        }),
    decreases count - total,
{
    let want = file::least(count - total, 4096);
    let got = file::window(data, pos, want);
    let n = portion(data, pos, count - total);
    assert(s.files.files.update(src, Fv::Mem(data, pos)) =~= s.files.files);
    if total < count && got.len() > 0 {
        let w = got.len() as int;
        let files = file::Ft {
            files: s.files.files.update(src, Fv::Mem(data, pos + w)),
            ..s.files
        };
        let s1 = Sv { files, ..s };
        let s2 = Sv { out: s.out + got, ..s1 };
        let p = Pg { total, chunk: got, ..syscall_fs::fresh() };
        assert(syscall_fs::copied(s, src, dst, count, total) == syscall_fs::chunk_sent(
            s1,
            src,
            dst,
            count,
            p,
        ));
        assert(syscall_fs::chunk_sent(s1, src, dst, count, p) == syscall_fs::copied(
            s2,
            src,
            dst,
            count,
            (total + w) as u64,
        ));
        lemma_copied(s2, src, dst, count, (total + w) as u64, data, pos + w);
        let rest = part(data, pos + w, count - total - w);
        assert(s.out + got + rest =~= s.out + part(data, pos, count - total));
        assert(s2.files.files.update(src, Fv::Mem(data, pos + n)) =~= s.files.files.update(
            src,
            Fv::Mem(data, pos + n),
        ));
    } else {
        assert(part(data, pos, count - total) =~= Seq::empty());
        assert(s.out + part(data, pos, count - total) =~= s.out);
    }
}

/// `sendfile` (40) to the console sends the bytes of the other file from its
/// position on, as many as were asked for and are there, whatever their number;
/// the position moves behind them.
pub proof fn law_sendfile_sends_the_rest_of_the_file(
    c: Caller,
    t: Tv,
    s: Sv,
    src: int,
    dst: int,
    data: Seq<u8>,
    pos: int,
)
    requires
        c.frame.rax == 40,
        posix_io::names_file(t, s, c.frame.rdi, dst),
        posix_io::names_file(t, s, c.frame.rsi, src),
        c.frame.rdx == 0,
        src != dst,
        0 <= pos,
        pos + data.len() + c.frame.r10 <= i64::MAX,
        s.files.files[src] == Fv::Mem(data, pos),
        s.files.files[dst] == Fv::Console(true),
    ensures
        ({
            let n = portion(data, pos, c.frame.r10 as int);
            syscall::served(c, t, s, syscall_fs::fresh()) matches Some(
                (c2, t2, s2, p2, Outcome::Return(r)),
            ) && r == n && t2 == t && s2.out == s.out + part(data, pos, c.frame.r10 as int)
                && s2.files.files == s.files.files.update(src, Fv::Mem(data, pos + n))
        }),
{
    lemma_copied(s, src, dst, c.frame.r10, 0, data, pos);
    let f = syscall_fs::fresh();
    assert(Pg { path: Seq::empty(), ..f } == f);
}

/// The pieces of memory that the entries from `i` on of an array at `iov` name,
/// one behind the other.
pub open spec fn gathered(m: Map<int, u8>, iov: int, i: int, n: int) -> Seq<u8>
    decreases n - i,
{
    if i >= n {
        Seq::empty()
    } else {
        process::peek(
            m,
            process::word64(m, iov + 16 * i)->0 as int,
            process::word64(m, iov + 16 * i + 8)->0 as nat,
        ) + gathered(m, iov, i + 1, n)
    }
}

/// Entry `i` of the array at `iov` names mapped memory.
pub open spec fn entry_ok(m: Map<int, u8>, iov: int, i: int) -> bool {
    process::word64(m, iov + 16 * i) matches Some(base) && process::word64(
        m,
        iov + 16 * i + 8,
    ) matches Some(len) && len <= u32::MAX && process::mapped(m, base as int, len as int)
}

proof fn lemma_writev(
    c: Caller,
    t: Tv,
    s: Sv,
    fd: u64,
    iov: u64,
    n: u64,
    i: u64,
    total: u64,
    id: int,
)
    requires
        posix_io::names_file(t, s, fd, id),
        s.files.files[id] == Fv::Console(true),
        i <= n,
        forall|k: int| i <= k < n ==> #[trigger] entry_ok(t.space.mem, iov as int, k),
        total + gathered(t.space.mem, iov as int, i as int, n as int).len() <= i64::MAX,
    ensures
        ({
            let b = gathered(t.space.mem, iov as int, i as int, n as int);
            syscall_fs::writev_from(c, t, s, fd, iov, n, i, total, 0) == sys::back(
                c,
                t,
                Sv { out: s.out + b, ..s },
                (total + b.len()) as i64,
            )
        }),
    decreases n - i,
{
    let m = t.space.mem;
    let b = gathered(m, iov as int, i as int, n as int);
    if i < n {
        assert(entry_ok(m, iov as int, i as int));
        assert(iov + i * 16 == iov + 16 * i && iov + (i * 16 + 8) == iov + 16 * i + 8);
        let base = process::word64(m, iov + 16 * i)->0;
        let len = process::word64(m, iov + 16 * i + 8)->0;
        let piece = process::peek(m, base as int, len as nat);
        let rest = gathered(m, iov as int, i + 1, n as int);
        let s2 = Sv { out: s.out + piece, ..s };
        assert(syscall_fs::write_call(c, t, s, fd, base, len, 0) == sys::back(c, t, s2, len as i64));
        lemma_writev(c, t, s2, fd, iov, n, (i + 1) as u64, (total + len) as u64, id);
        assert(s.out + piece + rest =~= s.out + b);
    } else {
        assert(s.out + b =~= s.out);
    }
}

/// `writev` (20) to the console sends every piece, in the order of the array.
pub proof fn law_writev_sends_every_piece(c: Caller, t: Tv, s: Sv, p: Pg, id: int)
    requires
        c.frame.rax == 20,
        posix_io::names_file(t, s, c.frame.rdi, id),
        s.files.files[id] == Fv::Console(true),
        p.done == 0,
        forall|k: int|
            0 <= k < c.frame.rdx ==> #[trigger] entry_ok(t.space.mem, c.frame.rsi as int, k),
        gathered(t.space.mem, c.frame.rsi as int, 0, c.frame.rdx as int).len() <= i64::MAX,
    ensures
        ({
            let b = gathered(t.space.mem, c.frame.rsi as int, 0, c.frame.rdx as int);
            syscall::served(c, t, s, p) matches Some((c2, t2, s2, p2, Outcome::Return(r))) && r
                == b.len() && s2.out == s.out + b && t2 == t
        }),
{
    lemma_writev(c, t, s, c.frame.rdi, c.frame.rsi, c.frame.rdx, 0, 0, id);
}

} // verus!
