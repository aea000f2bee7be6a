//! What a Windows program sees of its files, its memory, its events and the
//! registry: the services by their numbers and arguments, said of what the
//! caller can observe.
use vstd::prelude::*;

use crate::bytes;
use crate::file;
use crate::file::Fv;
use crate::nt_kernel32;
use crate::nt_names;
use crate::nt_ntdll;
use crate::posix_io;
use crate::process;
use crate::registry;
use crate::sys;
use crate::sys::{Caller, Outcome, Sv};
use crate::task;
use crate::task::Tv;
use crate::text;
use crate::wait::EventMode;

verus! {

/// Argument `i` of a call, where it is not in a register: the fifth and later
/// ones lie on the stack, behind the return address and the home area.
pub open spec fn stack_argument(c: Caller, t: Tv, i: int) -> Option<u64> {
    process::word64(t.space.mem, c.frame.rsp + 0x28 + 8 * (i - 5))
}

/// `NtWriteFile` (1) and `WriteFile` (2) to the console send the bytes of the
/// caller's buffer, all of them, behind what was sent before.
pub proof fn law_write_file_sends_the_buffer(c: Caller, t: Tv, s: Sv, id: int, buf: u64, len: u64)
    requires
        posix_io::names_file(t, s, c.frame.r10, id),
        s.files.files[id] == Fv::Console(true),
        len <= u32::MAX,
        process::mapped(t.space.mem, buf as int, len as int),
    ensures
        stack_argument(c, t, 5) == Some(0u64) && stack_argument(c, t, 6) == Some(buf)
            && stack_argument(c, t, 7) == Some(len) ==> (nt_ntdll::ntdll(1, 0, c, t, s) matches Some(
            (c2, t2, s2, Outcome::Return(r)),
        ) && r == 0 && s2.out == s.out + process::peek(t.space.mem, buf as int, len as nat)),
        c.frame.rdx == buf && c.frame.r8 == len && c.frame.r9 == 0 ==> (nt_kernel32::kernel32(
            2,
            0,
            c,
            t,
            s,
        ) matches Some((c2, t2, s2, Outcome::Return(r))) && r == 1 && s2.out == s.out
            + process::peek(t.space.mem, buf as int, len as nat)),
{
    assert(c.frame.rsp + (0x28 + 0 * 8) == c.frame.rsp + 0x28 + 8 * (5 - 5));
    assert(c.frame.rsp + (0x28 + 1 * 8) == c.frame.rsp + 0x28 + 8 * (6 - 5));
    assert(c.frame.rsp + (0x28 + 2 * 8) == c.frame.rsp + 0x28 + 8 * (7 - 5));
}

/// `NtReadFile` (2) and `ReadFile` (6) hand out the bytes from the file's
/// position on in the caller's buffer, and move the position behind them.
pub proof fn law_read_file_goes_on_where_the_last_one_ended(
    c: Caller,
    t: Tv,
    s: Sv,
    id: int,
    data: Seq<u8>,
    pos: int,
    buf: u64,
    len: u64,
)
    requires
        posix_io::names_file(t, s, c.frame.r10, id),
        s.files.files[id] == Fv::Mem(data, pos),
        0 <= pos < data.len(),
        data.len() <= i64::MAX,
        0 < len <= u32::MAX,
        process::mapped(t.space.mem, buf as int, len as int),
    ensures
        ({
            let n = if len < data.len() - pos {
                len as int
            } else {
                data.len() - pos
            };
            &&& stack_argument(c, t, 5) == Some(0u64) && stack_argument(c, t, 6) == Some(buf)
                && stack_argument(c, t, 7) == Some(len) ==> (nt_ntdll::ntdll(
                2,
                0,
                c,
                t,
                s,
            ) matches Some((c2, t2, s2, Outcome::Return(r))) && r == 0 && posix_io::only_stored(
                t.space.mem,
                t2.space.mem,
                buf as int,
                data.subrange(pos, pos + n),
            ) && s2.files.files[id] == Fv::Mem(data, pos + n))
            &&& c.frame.rdx == buf && c.frame.r8 == len && c.frame.r9 == 0 ==> (
            nt_kernel32::kernel32(6, 0, c, t, s) matches Some((c2, t2, s2, Outcome::Return(r))) && r
                == 1 && posix_io::only_stored(
                t.space.mem,
                t2.space.mem,
                buf as int,
                data.subrange(pos, pos + n),
            ) && s2.files.files[id] == Fv::Mem(data, pos + n))
        }),
{
    assert(c.frame.rsp + (0x28 + 0 * 8) == c.frame.rsp + 0x28 + 8 * (5 - 5));
    assert(c.frame.rsp + (0x28 + 1 * 8) == c.frame.rsp + 0x28 + 8 * (6 - 5));
    assert(c.frame.rsp + (0x28 + 2 * 8) == c.frame.rsp + 0x28 + 8 * (7 - 5));
    let n = if len < data.len() - pos {
        len as int
    } else {
        data.len() - pos
    };
    let got = file::window(data, pos, len as int);
    assert(got =~= data.subrange(pos, pos + n));
    assert forall|a: int|
        buf <= a < buf + n implies #[trigger] t.space.mem.contains_key(a) by {}
    posix_io::lemma_stored(t, buf as int, got);
}

/// `NtTerminateProcess` (6) and `ExitProcess` (0) end the process with the code
/// that they are given.
pub proof fn law_process_ends_with_its_code(c: Caller, t: Tv, s: Sv)
    ensures
        nt_ntdll::ntdll(6, 0, c, t, s) matches Some((c2, t2, s2, o)) && o == Outcome::Exit(
            c.frame.rdx as i32,
        ) && t2.exited,
        nt_kernel32::kernel32(0, 0, c, t, s) matches Some((c2, t2, s2, o)) && o == Outcome::Exit(
            c.frame.r10 as i32,
        ) && t2.exited,
{
}

/// The standard handles (-10, -11 and -12) are the descriptors 0, 1 and 2.
pub proof fn law_standard_handles_are_the_first_descriptors(c: Caller, t: Tv, s: Sv)
    ensures
        c.frame.r10 as i32 == -10 ==> (nt_kernel32::kernel32(1, 0, c, t, s) matches Some(
            (c2, t2, s2, Outcome::Return(r)),
        ) && r == 0),
        c.frame.r10 as i32 == -11 ==> (nt_kernel32::kernel32(1, 0, c, t, s) matches Some(
            (c2, t2, s2, Outcome::Return(r)),
        ) && r == 1),
        c.frame.r10 as i32 == -12 ==> (nt_kernel32::kernel32(1, 0, c, t, s) matches Some(
            (c2, t2, s2, Outcome::Return(r)),
        ) && r == 2),
{
}

/// `VirtualAlloc` (10) gives fresh zeroed memory of at least the size asked
/// for, and leaves what was mapped alone.
pub proof fn law_virtual_alloc_gives_fresh_zeros(c: Caller, t: Tv, s: Sv)
    requires
        0 < c.frame.rdx,
        (c.frame.rdx + 4095) / 4096 <= s.free.len(),
        0 < t.space.next_va,
        t.space.next_va + (c.frame.rdx + 4095) / 4096 * 4096 + 4096 <= i64::MAX,
    ensures
        nt_kernel32::kernel32(10, 0, c, t, s) matches Some((c2, t2, s2, Outcome::Return(r))) && r
            == t.space.next_va && (forall|a: int|
            r <= a < r + c.frame.rdx ==> #[trigger] t2.space.mem.contains_key(a) && t2.space.mem[a]
                == 0) && forall|a: int|
            !(r <= a < r + (c.frame.rdx + 4095) / 4096 * 4096) && #[trigger]
                t.space.mem.contains_key(a) ==> t2.space.mem.contains_key(a) && t2.space.mem[a]
                == t.space.mem[a],
{
    let n = (process::page_up(c.frame.rdx as int) / 4096) as nat;
    let base = t.space.next_va as int;
    process::law_fresh_pages_are_zero(t.space, s.free, base, n);
    let z = process::with_zero_pages(t.space, s.free, base, n);
    assert(n == (c.frame.rdx + 4095) / 4096);
    assert forall|a: int|
        !(base <= a < base + n * 4096) && #[trigger] t.space.mem.contains_key(a) implies z.mem.contains_key(
        a,
    ) && z.mem[a] == t.space.mem[a] by {
        assert(z.mem.contains_key(a) == t.space.mem.contains_key(a));
    }
}

/// `NtSetEvent` (15) signals an event, and `NtWaitForSingleObject` (14) then
/// goes on at once: it takes the signal of an event that resets itself, and
/// leaves that of one that does not. `NtResetEvent` (16) takes it in any case.
pub proof fn law_set_event_lets_a_waiter_through(c: Caller, d: Caller, t: Tv, s: Sv, i: int)
    requires
        sys::event_of(t, s, c.frame.r10 as i32) == Some(i),
        0 <= i < s.events.len(),
        d.frame.r10 == c.frame.r10,
        s.events[i].waiters.len() == 0,
        c.frame.rdx == 0,
        d.frame.r8 == 0,
    ensures
        nt_ntdll::ntdll(15, 0, c, t, s) matches Some((c2, t2, s2, Outcome::Return(r))) && r == 0
            && s2.events[i].signaled && (nt_ntdll::ntdll(14, 0, d, t2, s2) matches Some(
            (d3, t3, s3, Outcome::Return(v)),
        ) && v == 0 && s3.events[i].signaled == (s.events[i].mode == EventMode::Manual)),
        nt_ntdll::ntdll(16, 0, c, t, s) matches Some((c2, t2, s2, Outcome::Return(r))) && r == 0
            && !s2.events[i].signaled && (nt_ntdll::ntdll(14, 0, d, t2, s2) matches Some(
            (d3, t3, s3, o),
        ) && o == Outcome::WaitEvent(i as usize) && s3.events[i].waiters == seq![d.tid]),
{
}

/// The partial information about a value lies at `at`: its type, its length and
/// its bytes.
pub open spec fn told_at(m: Map<int, u8>, at: int, ty: u32, data: Seq<u8>) -> bool {
    let b = process::peek(m, at, 12 + data.len());
    &&& bytes::le32(b, 4) == ty
    &&& bytes::le32(b, 8) == data.len()
    &&& b.subrange(12, b.len() as int) == data
}

proof fn lemma_set(
    c: Caller,
    t: Tv,
    s: Sv,
    path: Seq<char>,
    name: Seq<char>,
    at: u64,
    len: u64,
)
    requires
        task::regkey_at(t.fds, (c.frame.r10 as i32) as int) == Some(path),
        s.registry.contains_key(registry::comps(path)),
        nt_names::unicode(t.space.mem, c.frame.rdx) == Some(name),
        stack_argument(c, t, 5) == Some(at),
        stack_argument(c, t, 6) == Some(len),
        process::mapped(t.space.mem, at as int, len as int),
        len <= 0x1000_0000,
    ensures
        nt_ntdll::ntdll(24, 0, c, t, s) == sys::back(
            c,
            t,
            Sv {
                registry: registry::value_set(
                    s.registry,
                    registry::comps(path),
                    text::lowered(name),
                    c.frame.r9 as u32,
                    process::peek(t.space.mem, at as int, len as nat),
                ),
                ..s
            },
            0,
        ),
{
    assert(c.frame.rsp + (0x28 + 0 * 8) == c.frame.rsp + 0x28 + 8 * (5 - 5));
    assert(c.frame.rsp + (0x28 + 1 * 8) == c.frame.rsp + 0x28 + 8 * (6 - 5));
}

proof fn lemma_query(
    d: Caller,
    u: Tv,
    s: Sv,
    path: Seq<char>,
    name: Seq<char>,
    ty: u32,
    data: Seq<u8>,
)
    requires
        task::regkey_at(u.fds, (d.frame.r10 as i32) as int) == Some(path),
        nt_names::unicode(u.space.mem, d.frame.rdx) == Some(name),
        registry::value_of(s.registry, registry::comps(path), text::lowered(name)) == Some(
            (ty, data),
        ),
        data.len() <= 0x1000_0000,
        d.frame.r8 == 2,
        stack_argument(d, u, 5) matches Some(room) && room >= 12 + data.len(),
        stack_argument(d, u, 6) == Some(0u64),
        process::mapped(u.space.mem, d.frame.r9 as int, 12 + data.len() as int),
    ensures
        nt_ntdll::ntdll(25, 0, d, u, s) matches Some((d3, u3, s3, Outcome::Return(v))) && v == 0
            && told_at(u3.space.mem, d.frame.r9 as int, ty, data),
{
    assert(d.frame.rsp + (0x28 + 0 * 8) == d.frame.rsp + 0x28 + 8 * (5 - 5));
    assert(d.frame.rsp + (0x28 + 1 * 8) == d.frame.rsp + 0x28 + 8 * (6 - 5));
    let info = nt_ntdll::partial_info(ty, data);
    lemma_info(ty, data);
    process::law_stored_bytes_read_back(u.space.mem, d.frame.r9 as int, info);
    assert(info.subrange(12, info.len() as int) =~= data);
}

/// A value that `NtSetValueKey` (24) stored is what `NtQueryValueKey` (25)
/// gives back under the same name: its type, its length and its bytes.
pub proof fn law_value_is_queried_as_it_was_set(
    c: Caller,
    d: Caller,
    t: Tv,
    u: Tv,
    s: Sv,
    path: Seq<char>,
    name: Seq<char>,
    at: u64,
    len: u64,
)
    requires
        task::regkey_at(t.fds, (c.frame.r10 as i32) as int) == Some(path),
        task::regkey_at(u.fds, (d.frame.r10 as i32) as int) == Some(path),
        s.registry.contains_key(registry::comps(path)),
        nt_names::unicode(t.space.mem, c.frame.rdx) == Some(name),
        nt_names::unicode(u.space.mem, d.frame.rdx) == Some(name),
        stack_argument(c, t, 5) == Some(at),
        stack_argument(c, t, 6) == Some(len),
        process::mapped(t.space.mem, at as int, len as int),
        len <= 0x1000_0000,
        d.frame.r8 == 2,
        stack_argument(d, u, 5) matches Some(room) && room >= 12 + len,
        stack_argument(d, u, 6) == Some(0u64),
        process::mapped(u.space.mem, d.frame.r9 as int, 12 + len),
    ensures
        nt_ntdll::ntdll(24, 0, c, t, s) matches Some((c2, t2, s2, Outcome::Return(r))) && r == 0 && (
        nt_ntdll::ntdll(25, 0, d, u, s2) matches Some((d3, u3, s3, Outcome::Return(v))) && v == 0
            && told_at(
            u3.space.mem,
            d.frame.r9 as int,
            c.frame.r9 as u32,
            process::peek(t.space.mem, at as int, len as nat),
        )),
{
    let p = registry::comps(path);
    let data = process::peek(t.space.mem, at as int, len as nat);
    let ty = c.frame.r9 as u32;
    let n = text::lowered(name);
    lemma_set(c, t, s, path, name, at, len);
    registry::law_query_reads_what_was_set(s.registry, p, n, ty, data, p, n);
    let s2 = Sv { registry: registry::value_set(s.registry, p, n, ty, data), ..s };
    lemma_query(d, u, s2, path, name, ty, data);
}

proof fn lemma_info(ty: u32, data: Seq<u8>)
    requires
        data.len() <= 0x1000_0000,
    ensures
        ({
            let b = nt_ntdll::partial_info(ty, data);
            &&& b.len() == 12 + data.len()
            &&& bytes::le32(b, 4) == ty
            &&& bytes::le32(b, 8) == data.len()
            &&& forall|i: int| 12 <= i < b.len() ==> #[trigger] b[i] == data[i - 12]
        }),
{
    let b = nt_ntdll::partial_info(ty, data);
    let n = data.len() as u32;
    lemma_word_in(b, 4, ty);
    lemma_word_in(b, 8, n);
}

proof fn lemma_word_in(b: Seq<u8>, off: int, v: u32)
    requires
        0 <= off,
        off + 4 <= b.len(),
        b[off] == bytes::bytes32(v)[0],
        b[off + 1] == bytes::bytes32(v)[1],
        b[off + 2] == bytes::bytes32(v)[2],
        b[off + 3] == bytes::bytes32(v)[3],
    ensures
        bytes::le32(b, off) == v,
{
    bytes::lemma_le32_of_splice(b, off, v);
    assert(bytes::splice(b, off, bytes::bytes32(v)) =~= b);
}

/// `NtQueueApcThread` (20) puts a call behind those that are queued, with its
/// routine and three arguments, and `NtTestAlert` (21) takes the one in front.
pub proof fn law_queued_calls_are_delivered_in_order(c: Caller, t: Tv, s: Sv, arg3: u64)
    ensures
        c.frame.r10 == 0xFFFF_FFFF_FFFF_FFFE && c.frame.rdx != 0 && stack_argument(c, t, 5) == Some(
            arg3,
        ) ==> (nt_ntdll::ntdll(20, 0, c, t, s) matches Some((c2, t2, s2, Outcome::Return(r))) && r
            == 0 && t2.apcs.len() == t.apcs.len() + 1 && t2.apcs.drop_last() == t.apcs
            && t2.apcs.last().routine == c.frame.rdx && t2.apcs.last().arg1 == c.frame.r8
            && t2.apcs.last().arg2 == c.frame.r9 && t2.apcs.last().arg3 == arg3),
        t.apcs.len() > 0 ==> (nt_ntdll::ntdll(21, 0, c, t, s) matches Some(
            (c2, t2, s2, Outcome::Return(r)),
        ) ==> r == 0 && t2.apcs == t.apcs.subrange(1, t.apcs.len() as int)),
        t.apcs.len() == 0 ==> (nt_ntdll::ntdll(21, 0, c, t, s) matches Some(
            (c2, t2, s2, Outcome::Return(r)),
        ) && r == 0 && c2 == c && t2 == t),
{
    assert(c.frame.rsp + (0x28 + 0 * 8) == c.frame.rsp + 0x28 + 8 * (5 - 5));
    if t.apcs.len() > 0 {
        assert(t.apcs.skip(1) =~= t.apcs.subrange(1, t.apcs.len() as int));
    }
    assert forall|e: crate::apc::ApcEntry| #[trigger] t.apcs.push(e).drop_last() == t.apcs by {
        assert(t.apcs.push(e).drop_last() =~= t.apcs);
    }
}

} // verus!
