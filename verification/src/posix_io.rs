//! What a POSIX program sees of its files and its memory: the system calls by
//! their numbers and registers, said of what the caller can observe.
use vstd::prelude::*;

use crate::bytes;
use crate::ext2;
use crate::file;
use crate::file::Fv;
use crate::process;
use crate::sys;
use crate::sys::{Caller, Outcome, Sv};
use crate::syscall;
use crate::syscall_fs;
use crate::syscall_fs::Pg;
use crate::task;
use crate::task::Tv;

verus! {

/// The call with this number and these arguments is about descriptor `fd`,
/// which names open file `id`.
pub open spec fn names_file(t: Tv, s: Sv, fd: u64, id: int) -> bool {
    sys::file_of(t, s, fd as i32) == Some(id) && 0 <= id < s.files.files.len()
}

/// Only the bytes `b` at `a` changed between the two memories.
pub open spec fn only_stored(m: Map<int, u8>, n: Map<int, u8>, a: int, b: Seq<u8>) -> bool {
    &&& n.dom() == m.dom()
    &&& forall|i: int| 0 <= i < b.len() ==> n[a + i] == #[trigger] b[i]
    &&& forall|x: int| m.contains_key(x) && !(a <= x < a + b.len()) ==> #[trigger] n[x] == m[x]
}

pub proof fn lemma_stored(t: Tv, a: int, b: Seq<u8>)
    requires
        process::mapped(t.space.mem, a, b.len() as int),
    ensures
        task::poked(t, a, b) is Some,
        only_stored(t.space.mem, task::poked(t, a, b)->0.space.mem, a, b),
        ({
            let u = task::poked(t, a, b)->0;
            u.fds == t.fds && u.cwd == t.cwd && u.pid == t.pid && u.space.brk == t.space.brk
                && u.space.next_va == t.space.next_va
        }),
{
    process::law_stored_bytes_read_back(t.space.mem, a, b);
    let n = process::poke(t.space.mem, a, b);
    assert forall|i: int| 0 <= i < b.len() implies n[a + i] == #[trigger] b[i] by {
        assert(t.space.mem.contains_key(a + i));
    }
}

/// `read` (0) hands out the bytes from the file's position on, as many as were
/// asked for and are there, in the caller's buffer; the position moves behind
/// them, so the next read goes on there; nothing else changes.
pub proof fn law_read_goes_on_where_the_last_one_ended(
    c: Caller,
    t: Tv,
    s: Sv,
    p: Pg,
    id: int,
    data: Seq<u8>,
    pos: int,
)
    requires
        c.frame.rax == 0,
        names_file(t, s, c.frame.rdi, id),
        s.files.files[id] == Fv::Mem(data, pos),
        0 <= pos,
        data.len() <= i64::MAX,
        c.frame.rdx <= u32::MAX,
        process::mapped(t.space.mem, c.frame.rsi as int, c.frame.rdx as int),
    ensures
        ({
            let left = if pos < data.len() {
                data.len() - pos
            } else {
                0
            };
            let n = if c.frame.rdx < left {
                c.frame.rdx as int
            } else {
                left
            };
            syscall::served(c, t, s, p) matches Some((c2, t2, s2, p2, Outcome::Return(r))) && r == n
                && only_stored(
                t.space.mem,
                t2.space.mem,
                c.frame.rsi as int,
                if n > 0 {
                    data.subrange(pos, pos + n)
                } else {
                    Seq::empty()
                },
            ) && t2.fds == t.fds && s2.files.files == s.files.files.update(
                id,
                Fv::Mem(data, pos + n),
            ) && s2.out == s.out && c2 == c
        }),
{
    let got = file::window(data, pos, c.frame.rdx as int);
    assert forall|a: int|
        c.frame.rsi <= a < c.frame.rsi + got.len() implies #[trigger] t.space.mem.contains_key(a) by {
    }
    lemma_stored(t, c.frame.rsi as int, got);
    let left = if pos < data.len() {
        data.len() - pos
    } else {
        0
    };
    let n = if c.frame.rdx < left {
        c.frame.rdx as int
    } else {
        left
    };
    assert(got.len() == n);
    assert(got =~= if n > 0 {
        data.subrange(pos, pos + n)
    } else {
        Seq::empty()
    });
}

/// `lseek` (8) moves the position of a file: to the offset, that far from where
/// it is, or that far from the end.
pub proof fn law_seek_sets_the_position(
    c: Caller,
    t: Tv,
    s: Sv,
    p: Pg,
    id: int,
    data: Seq<u8>,
    pos: int,
)
    requires
        c.frame.rax == 8,
        names_file(t, s, c.frame.rdi, id),
        s.files.files[id] == Fv::Mem(data, pos),
        c.frame.rdx <= 2,
    ensures
        ({
            let off = c.frame.rsi as i64;
            let to = if c.frame.rdx == 0 {
                off as int
            } else if c.frame.rdx == 1 {
                pos + off
            } else {
                data.len() + off
            };
            syscall::served(c, t, s, p) matches Some((c2, t2, s2, p2, Outcome::Return(r))) && t2
                == t && (0 <= to <= i64::MAX ==> r == to && s2.files.files == s.files.files.update(
                id,
                Fv::Mem(data, to),
            )) && (to < 0 ==> r == -22 && s2.files.files == s.files.files)
        }),
{
    assert(c.frame.rdx as u32 == c.frame.rdx);
}

/// `write` (1) to the console sends the bytes of the caller's buffer, all of
/// them, behind what was sent before.
pub proof fn law_console_write_sends_the_buffer(c: Caller, t: Tv, s: Sv, p: Pg, id: int)
    requires
        c.frame.rax == 1,
        names_file(t, s, c.frame.rdi, id),
        s.files.files[id] == Fv::Console(true),
        p.done == 0,
        c.frame.rdx <= u32::MAX,
        process::mapped(t.space.mem, c.frame.rsi as int, c.frame.rdx as int),
    ensures
        syscall::served(c, t, s, p) matches Some((c2, t2, s2, p2, Outcome::Return(r))) && r
            == c.frame.rdx && t2 == t && s2.out.len() == s.out.len() + c.frame.rdx && (forall|
            i: int,
        |
            0 <= i < s.out.len() ==> #[trigger] s2.out[i] == s.out[i]) && (forall|i: int|
            s.out.len() <= i < s2.out.len() ==> #[trigger] s2.out[i] == t.space.mem[c.frame.rsi + (i
                - s.out.len())]),
{
}

/// `write` to a pipe with room puts the buffer behind what the pipe holds, and
/// `read` from the other end takes it from the front.
pub proof fn law_pipe_carries_the_buffer(c: Caller, t: Tv, s: Sv, p: Pg, id: int, q: int)
    requires
        names_file(t, s, c.frame.rdi, id),
        0 <= q < s.files.pipes.len(),
        p.done == 0,
        0 < c.frame.rdx <= 65536,
        process::mapped(t.space.mem, c.frame.rsi as int, c.frame.rdx as int),
    ensures
        c.frame.rax == 1 && s.files.files[id] == Fv::PipeWrite(q) && s.files.pipes[q].readers > 0
            && s.files.pipes[q].buf.len() + c.frame.rdx <= 65536 ==> {
            let n = s.files.pipes[q].buf.len();
            syscall::served(c, t, s, p) matches Some((c2, t2, s2, p2, Outcome::Return(r))) && r
                == c.frame.rdx && s2.files.pipes[q].buf.len() == n + c.frame.rdx && (forall|i: int|
                0 <= i < n ==> #[trigger] s2.files.pipes[q].buf[i] == s.files.pipes[q].buf[i]) && (
            forall|i: int|
                n <= i < n + c.frame.rdx ==> #[trigger] s2.files.pipes[q].buf[i]
                    == t.space.mem[c.frame.rsi + (i - n)])
        },
        c.frame.rax == 0 && s.files.files[id] == Fv::PipeRead(q) && s.files.pipes[q].buf.len() > 0
            && s.files.pipes[q].buf.len() <= i64::MAX ==> {
            let b = s.files.pipes[q].buf;
            let n = if c.frame.rdx < b.len() {
                c.frame.rdx as int
            } else {
                b.len() as int
            };
            syscall::served(c, t, s, p) matches Some((c2, t2, s2, p2, Outcome::Return(r))) && r == n
                && only_stored(t.space.mem, t2.space.mem, c.frame.rsi as int, b.subrange(0, n))
                && s2.files.pipes[q].buf == b.subrange(n, b.len() as int)
        },
{
    let data = process::peek(t.space.mem, c.frame.rsi as int, c.frame.rdx as nat);
    assert(data.subrange(0, data.len() as int) =~= data);
    if c.frame.rax == 0 && s.files.files[id] == Fv::PipeRead(q) && s.files.pipes[q].buf.len() > 0
        && s.files.pipes[q].buf.len() <= i64::MAX {
        let b = s.files.pipes[q].buf;
        let n = file::least(c.frame.rdx as int, b.len() as int);
        assert(b.take(n) =~= b.subrange(0, n));
        assert(b.skip(n) =~= b.subrange(n, b.len() as int));
        assert forall|a: int|
            c.frame.rsi <= a < c.frame.rsi + n implies #[trigger] t.space.mem.contains_key(a) by {}
        lemma_stored(t, c.frame.rsi as int, b.take(n));
    }
}

/// Two descriptors were stored at `at`, the read end of pipe `q` first.
pub open spec fn ends_at(t: Tv, s: Sv, at: int, q: int) -> bool {
    let r = process::word32(t.space.mem, at);
    let w = process::word32(t.space.mem, at + 4);
    &&& r is Some && w is Some && r != w
    &&& task::file_at(t.fds, r->0 as int) matches Some(i) && s.files.files[i] == Fv::PipeRead(q)
    &&& task::file_at(t.fds, w->0 as int) matches Some(i) && s.files.files[i] == Fv::PipeWrite(q)
}

proof fn lemma_pipe_call(c: Caller, t: Tv, s: Sv, at: u64)
    requires
        t.fds.len() + 2 <= 1024,
        process::mapped(t.space.mem, at as int, 8),
    ensures
        syscall_fs::pipe_call(c, t, s, at, 0) matches Some((c2, t2, s2, Outcome::Return(v))) && v
            == 0 && ends_at(t2, s2, at as int, s.files.pipes.len() as int) && s2.files.pipes
            == s.files.pipes.push(file::new_pipe()),
{
    let id = s.files.files.len() as int;
    let e1 = task::Fd { obj: task::Obj::File(id), cloexec: false };
    let e2 = task::Fd { obj: task::Obj::File(id + 1), cloexec: false };
    let (fds1, r) = task::fd_put(t.fds, e1);
    task::law_descriptor_is_lowest_free(t.fds, e1);
    let (fds2, w) = task::fd_put(fds1, e2);
    task::law_descriptor_is_lowest_free(fds1, e2);
    assert(0u64 & 0o2000000u64 == 0) by (bit_vector);
    assert(0 <= r < 1024 && 0 <= w < 1024);
    assert((r as i32) as u32 == r && (w as i32) as u32 == w);
    let b = bytes::bytes32(r as u32) + bytes::bytes32(w as u32);
    let u = Tv { fds: fds2, ..t };
    lemma_stored(u, at as int, b);
    let n = task::poked(u, at as int, b)->0.space.mem;
    assert forall|x: int| at <= x < at + 8 implies #[trigger] n.contains_key(x) by {
        assert(t.space.mem.contains_key(x));
        assert(t.space.mem.dom().contains(x));
    }
    assert(b.subrange(0, 4) =~= bytes::bytes32(r as u32));
    assert(b.subrange(4, 8) =~= bytes::bytes32(w as u32));
    lemma_word32(n, at as int, b, 0, r as u32);
    lemma_word32(n, at as int, b, 4, w as u32);
    assert(fds2[r] == Some(e1));
}

/// `pipe` (22) stores two descriptors, the read end first; both lead to one
/// fresh, empty pipe with one reader and one writer.
pub proof fn law_pipe_has_two_ends(c: Caller, t: Tv, s: Sv, p: Pg)
    requires
        c.frame.rax == 22,
        t.fds.len() + 2 <= 1024,
        process::mapped(t.space.mem, c.frame.rdi as int, 8),
    ensures
        syscall::served(c, t, s, p) matches Some((c2, t2, s2, p2, Outcome::Return(v))) && v == 0
            && ends_at(t2, s2, c.frame.rdi as int, s.files.pipes.len() as int)
            && s2.files.pipes.len() == s.files.pipes.len() + 1 && s2.files.pipes.last().buf.len()
            == 0 && s2.files.pipes.last().readers == 1 && s2.files.pipes.last().writers == 1,
{
    lemma_pipe_call(c, t, s, c.frame.rdi);
}

proof fn lemma_word32(n: Map<int, u8>, at: int, b: Seq<u8>, off: int, v: u32)
    requires
        0 <= off,
        off + 4 <= b.len(),
        process::mapped(n, at, b.len() as int),
        forall|i: int| 0 <= i < b.len() ==> n[at + i] == #[trigger] b[i],
        b.subrange(off, off + 4) == bytes::bytes32(v),
    ensures
        process::word32(n, at + off) == Some(v),
{
    let a = at + off;
    assert forall|i: int| a <= i < a + 4 implies #[trigger] n.contains_key(i) by {}
    let got = process::peek(n, a, 4);
    let w = bytes::bytes32(v);
    assert(got =~= w) by {
        assert forall|i: int| 0 <= i < 4 implies got[i] == w[i] by {
            assert(n[at + (off + i)] == b[off + i]);
            assert(b.subrange(off, off + 4)[i] == b[off + i]);
        }
    }
    let z = bytes::zeros(4);
    bytes::lemma_le32_of_splice(z, 0, v);
    assert(bytes::splice(z, 0, w) =~= w);
}

/// `open` (2) gives the lowest free descriptor, and it leads to the bytes of
/// the file that the path names, from their beginning.
pub proof fn law_open_leads_to_the_bytes_of_the_path(
    c: Caller,
    t: Tv,
    s: Sv,
    p: Pg,
    path: Seq<char>,
    ino: u32,
    mode: u16,
    size: u64,
    block: Seq<u32>,
    data: Seq<u8>,
)
    requires
        c.frame.rax == 2,
        syscall_fs::user_path(t, c.frame.rdi) == Some(path),
        ext2::opened(s.disk) is Ok,
        ext2::path_ino(s.disk, ext2::opened(s.disk)->Ok_0, vstd::utf8::encode_utf8(path)) == Ok::<
            Option<u32>,
            &'static str,
        >(Some(ino)),
        ext2::inode_at(s.disk, ext2::opened(s.disk)->Ok_0, ino) == Ok::<
            (u16, u64, Seq<u32>),
            &'static str,
        >((mode, size, block)),
        mode / 4096 != 4,
        ext2::file_data(s.disk, ext2::opened(s.disk)->Ok_0, size, block) == Ok::<
            Seq<u8>,
            &'static str,
        >(data),
        t.fds.len() < 1024,
    ensures
        syscall::served(c, t, s, p) matches Some((c2, t2, s2, p2, Outcome::Return(fd))) && fd >= 0
            && task::obj_at(t.fds, fd as int) is None && (forall|k: int|
            0 <= k < fd ==> (#[trigger] t.fds[k]) is Some) && (task::file_at(
            t2.fds,
            fd as int,
        ) matches Some(id) && s2.files.files[id] == Fv::Mem(data, 0)) && s2.files.files.take(
            s.files.files.len() as int,
        ) == s.files.files,
{
    assert((mode & 0xF000 == 0x4000) == (mode / 4096 == 4)) by (bit_vector);
    let id = s.files.files.len() as int;
    let e = task::Fd { obj: task::Obj::File(id), cloexec: false };
    task::law_descriptor_is_lowest_free(t.fds, e);
    assert(s.files.files.push(Fv::Mem(data, 0)).take(id) =~= s.files.files);
}

/// `fstat` (5) stores the size of the file and its kind.
pub proof fn law_stat_gives_the_size(
    c: Caller,
    t: Tv,
    s: Sv,
    p: Pg,
    id: int,
    data: Seq<u8>,
    pos: int,
)
    requires
        c.frame.rax == 5,
        names_file(t, s, c.frame.rdi, id),
        s.files.files[id] == Fv::Mem(data, pos),
        data.len() <= i64::MAX,
        process::mapped(t.space.mem, c.frame.rsi as int, 144),
    ensures
        syscall::served(c, t, s, p) matches Some((c2, t2, s2, p2, Outcome::Return(v))) && v == 0 && (
        {
            let b = process::peek(t2.space.mem, c.frame.rsi as int, 144);
            &&& bytes::le64(b, 48) == data.len()
            &&& bytes::le32(b, 24) == 0o100644
            &&& bytes::le64(b, 16) == 1
            &&& bytes::le64(b, 56) == 4096
            &&& bytes::le64(b, 64) == (data.len() + 511) / 512
            &&& s2 == s
        }),
{
    let size = data.len() as u64;
    lemma_stat(0o100644, size);
    let b = syscall_fs::stat_block(0o100644, size);
    process::law_stored_bytes_read_back(t.space.mem, c.frame.rsi as int, b);
}

proof fn lemma_stat(mode: u32, size: u64)
    requires
        size <= i64::MAX,
    ensures
        ({
            let b = syscall_fs::stat_block(mode, size);
            &&& b.len() == 144
            &&& bytes::le64(b, 48) == size
            &&& bytes::le32(b, 24) == mode
            &&& bytes::le64(b, 16) == 1
            &&& bytes::le64(b, 56) == 4096
            &&& bytes::le64(b, 64) == (size + 511) / 512
        }),
{
    let b0 = bytes::zeros(144);
    let b1 = bytes::splice(b0, 16, bytes::bytes64(1));
    bytes::lemma_store64(b0, 16, 1);
    let b2 = bytes::splice(b1, 24, bytes::bytes32(mode));
    bytes::lemma_le32_of_splice(b1, 24, mode);
    assert(bytes::le64(b2, 16) == bytes::le64(b1, 16));
    let b3 = bytes::splice(b2, 48, bytes::bytes64(size));
    bytes::lemma_store64(b2, 48, size);
    let b4 = bytes::splice(b3, 56, bytes::bytes64(4096));
    bytes::lemma_store64(b3, 56, 4096);
    bytes::lemma_store64(b4, 64, (size.wrapping_add(511) / 512) as u64);
    assert(bytes::le64(b3, 16) == 1 && bytes::le32(b3, 24) == mode);
    assert(bytes::le64(b4, 16) == 1 && bytes::le32(b4, 24) == mode && bytes::le64(b4, 48) == size);
}

/// `dup` (32) gives a free descriptor that names the same open file, and `dup2`
/// (33) makes the one that it is told to.
pub proof fn law_duplicates_share_the_open_file(c: Caller, t: Tv, s: Sv, p: Pg, id: int)
    requires
        names_file(t, s, c.frame.rdi, id),
        t.fds.len() < 1024,
    ensures
        c.frame.rax == 32 ==> (syscall::served(c, t, s, p) matches Some(
            (c2, t2, s2, p2, Outcome::Return(fd)),
        ) && fd >= 0 && task::obj_at(t.fds, fd as int) is None && task::file_at(t2.fds, fd as int)
            == Some(id) && s2.files.files == s.files.files),
        c.frame.rax == 33 && c.frame.rsi < 1024 ==> (syscall::served(c, t, s, p) matches Some(
            (c2, t2, s2, p2, Outcome::Return(fd)),
        ) && fd == c.frame.rsi && task::file_at(t2.fds, fd as int) == Some(id) && task::file_at(
            t2.fds,
            (c.frame.rdi as i32) as int,
        ) == Some(id)),
{
    let fd = c.frame.rdi as i32;
    task::law_duplicate_names_the_same(t.fds, fd as int, 0);
    assert(c.frame.rsi < 1024 ==> c.frame.rsi as i32 == c.frame.rsi);
}

/// What a break that moves up leaves behind.
pub open spec fn grown_with_zeros(old: process::Space, new: process::Space) -> bool {
    &&& forall|a: int|
        (old.brk + 4095) / 4096 * 4096 <= a < new.brk ==> #[trigger] new.mem.contains_key(a)
            && new.mem[a] == 0
    &&& forall|a: int|
        a < old.brk && #[trigger] old.mem.contains_key(a) ==> new.mem.contains_key(a) && new.mem[a]
            == old.mem[a]
}

#[verifier::spinoff_prover]
proof fn lemma_break(t: Tv, free: Seq<u64>, req: u64)
    requires
        process::BRK_BASE <= t.space.brk <= req <= process::BRK_MAX,
        (req + 4095) / 4096 - (t.space.brk + 4095) / 4096 <= free.len(),
    ensures
        ({
            let (u, left, r) = task::broken(t, free, req);
            &&& r == Some(req)
            &&& u.space.brk == req
            &&& grown_with_zeros(t.space, u.space)
            &&& free.len() - left.len() == (req + 4095) / 4096 - (t.space.brk + 4095) / 4096
        }),
{
    let cur = t.space.brk as int;
    let n = process::brk_pages(cur, req as int);
    let low = process::page_up(cur);
    assert(low == (cur + 4095) / 4096 * 4096);
    assert(process::page_up(req as int) == (req + 4095) / 4096 * 4096);
    process::law_fresh_pages_are_zero(t.space, free, low, n);
    let z = process::with_zero_pages(t.space, free, low, n);
    assert(low + n * 4096 == process::page_up(req as int));
    let (u, left, r) = task::broken(t, free, req);
    assert(u.space.mem == z.mem && u.space.brk == req);
    assert(left.len() == free.len() - n);
    assert forall|a: int| low <= a < req implies #[trigger] u.space.mem.contains_key(a)
        && u.space.mem[a] == 0 by {
        assert(z.mem.contains_key(a));
    }
    assert forall|a: int| a < cur && #[trigger] t.space.mem.contains_key(a) implies u.space.mem.contains_key(
        a,
    ) && u.space.mem[a] == t.space.mem[a] by {
        assert(z.mem.contains_key(a) == t.space.mem.contains_key(a));
    }
    assert(grown_with_zeros(t.space, u.space));
}

/// `brk` (12) beyond what is mapped moves the break to where it was asked to
/// be: the pages up to it are there and zero, and memory below the old break is
/// as it was. Asking for 0 tells where the break is.
pub proof fn law_break_grows_with_zeros(c: Caller, t: Tv, s: Sv, p: Pg)
    requires
        c.frame.rax == 12,
        process::BRK_BASE <= t.space.brk <= process::BRK_MAX,
    ensures
        c.frame.rdi == 0 ==> (syscall::served(c, t, s, p) matches Some(
            (c2, t2, s2, p2, Outcome::Return(r)),
        ) && r == t.space.brk && t2 == t && s2 == s),
        t.space.brk <= c.frame.rdi <= process::BRK_MAX && (c.frame.rdi + 4095) / 4096 - (t.space.brk
            + 4095) / 4096 <= s.free.len() ==> (syscall::served(c, t, s, p) matches Some(
            (c2, t2, s2, p2, Outcome::Return(r)),
        ) && r == c.frame.rdi && t2.space.brk == c.frame.rdi && grown_with_zeros(t.space, t2.space)
            && s.free.len() - s2.free.len() == (c.frame.rdi + 4095) / 4096 - (t.space.brk + 4095)
            / 4096),
{
    if t.space.brk <= c.frame.rdi <= process::BRK_MAX && (c.frame.rdi + 4095) / 4096 - (t.space.brk
        + 4095) / 4096 <= s.free.len() {
        lemma_break(t, s.free, c.frame.rdi);
    }
}

/// `mmap` (9) maps as many fresh zeroed pages as the length needs where the
/// last mapping ended, one page apart, and leaves all other memory alone.
pub proof fn law_mapping_gives_fresh_zeros(c: Caller, t: Tv, s: Sv, p: Pg)
    requires
        c.frame.rax == 9,
        (c.frame.rsi + 4095) / 4096 <= s.free.len(),
        t.space.next_va + (c.frame.rsi + 4095) / 4096 * 4096 + 4096 <= i64::MAX,
    ensures
        syscall::served(c, t, s, p) matches Some((c2, t2, s2, p2, Outcome::Return(r))) && r
            == t.space.next_va && (forall|a: int|
            r <= a < r + c.frame.rsi ==> #[trigger] t2.space.mem.contains_key(a)
                && t2.space.mem[a] == 0) && (forall|a: int|
            !(r <= a < r + (c.frame.rsi + 4095) / 4096 * 4096) && #[trigger]
                t.space.mem.contains_key(a) ==> t2.space.mem.contains_key(a) && t2.space.mem[a]
                == t.space.mem[a]) && t2.space.next_va == r + (c.frame.rsi + 4095) / 4096 * 4096
            + 4096,
{
    let n = (process::page_up(c.frame.rsi as int) / 4096) as nat;
    let base = t.space.next_va as int;
    process::law_fresh_pages_are_zero(t.space, s.free, base, n);
    let z = process::with_zero_pages(t.space, s.free, base, n);
    assert(n == (c.frame.rsi + 4095) / 4096);
    assert forall|a: int|
        !(base <= a < base + n * 4096) && #[trigger] t.space.mem.contains_key(a) implies z.mem.contains_key(
        a,
    ) && z.mem[a] == t.space.mem[a] by {
        assert(z.mem.contains_key(a) == t.space.mem.contains_key(a));
    }
}

/// A process is told who it is: its own number, its parent's, and its user's.
pub proof fn law_process_is_told_who_it_is(c: Caller, t: Tv, s: Sv, p: Pg)
    ensures
        c.frame.rax == 39 ==> (syscall::served(c, t, s, p) matches Some(
            (c2, t2, s2, p2, Outcome::Return(r)),
        ) && r == t.pid as i64 && t2 == t && s2 == s),
        c.frame.rax == 110 ==> (syscall::served(c, t, s, p) matches Some(
            (c2, t2, s2, p2, Outcome::Return(r)),
        ) && r == t.ppid as i64 && t2 == t && s2 == s),
        c.frame.rax == 102 ==> (syscall::served(c, t, s, p) matches Some(
            (c2, t2, s2, p2, Outcome::Return(r)),
        ) && r == t.uid as i64 && t2 == t && s2 == s),
{
}

} // verus!
