//! What a Windows program gets from the services that hand out handles,
//! addresses and codes, by their numbers: where the answer is stored, and what
//! a later call makes of it.
use vstd::prelude::*;

use crate::bytes;
use crate::nt_kernel32;
use crate::nt_names;
use crate::nt_ntdll;
use crate::nt_services;
use crate::posix_io;
use crate::process;
use crate::registry;
use crate::seh;
use crate::sys::{Caller, Outcome, Sv};
use crate::task;
use crate::task::{Obj, Tv};
use crate::text;
use crate::wait::EventMode;

verus! {

proof fn lemma_word64_kept(m: Map<int, u8>, a: int, v: u64)
    requires
        process::mapped(m, a, 8),
    ensures
        process::word64(process::poke(m, a, bytes::bytes64(v)), a) == Some(v),
{
    let b = bytes::bytes64(v);
    let n = process::poke(m, a, b);
    process::law_stored_bytes_read_back(m, a, b);
    assert(process::peek(n, a, 8) =~= b);
    bytes::lemma_le64_of_splice(b, 0, v);
    assert(bytes::splice(b, 0, b) =~= b);
    assert(process::mapped(n, a, 8)) by {
        assert forall|i: int| a <= i < a + 8 implies #[trigger] n.contains_key(i) by {
            assert(m.contains_key(i));
        }
    }
}

proof fn lemma_word32_kept(m: Map<int, u8>, a: int, v: u32)
    requires
        process::mapped(m, a, 4),
    ensures
        process::word32(process::poke(m, a, bytes::bytes32(v)), a) == Some(v),
{
    let b = bytes::bytes32(v);
    let n = process::poke(m, a, b);
    process::law_stored_bytes_read_back(m, a, b);
    assert(process::peek(n, a, 4) =~= b);
    bytes::lemma_le32_of_splice(b, 0, v);
    assert(bytes::splice(b, 0, b) =~= b);
    assert(process::mapped(n, a, 4)) by {
        assert forall|i: int| a <= i < a + 4 implies #[trigger] n.contains_key(i) by {
            assert(m.contains_key(i));
        }
    }
}

proof fn lemma_put64(c: Caller, t: Tv, s: Sv, at: u64, v: u64)
    requires
        at != 0,
        process::mapped(t.space.mem, at as int, 8),
    ensures
        nt_ntdll::puts64(c, t, s, at, v, 0) matches Some((c2, t2, s2, o)) && o == Outcome::Return(0)
            && process::word64(t2.space.mem, at as int) == Some(v),
{
    lemma_poked64(t, at as int, v);
}

/// The code that `SetLastError` (4) sets is the one that `GetLastError` (3)
/// gives; it stands at 0x68 of the thread's block, and setting it touches
/// nothing else.
#[verifier::spinoff_prover]
pub proof fn law_last_error_is_the_one_set(c: Caller, t: Tv, s: Sv)
    requires
        c.gsbase != 0,
        process::mapped(t.space.mem, c.gsbase + 0x68, 4),
    ensures
        nt_kernel32::kernel32(4, 0, c, t, s) matches Some((c2, t2, s2, Outcome::Return(r))) && s2
            == s && process::word32(t2.space.mem, c.gsbase + 0x68) == Some(c.frame.r10 as u32) && (
        nt_kernel32::kernel32(3, 0, c2, t2, s2) matches Some((c3, t3, s3, Outcome::Return(v))) && v
            == (c.frame.r10 as u32) as i64 && t3 == t2) && forall|a: int|
            !(c.gsbase + 0x68 <= a < c.gsbase + 0x6C) && #[trigger] t.space.mem.contains_key(a)
                ==> t2.space.mem.contains_key(a) && t2.space.mem[a] == t.space.mem[a],
{
    let at = c.gsbase + 0x68;
    let b = bytes::bytes32(c.frame.r10 as u32);
    lemma_word32_kept(t.space.mem, at, c.frame.r10 as u32);
    posix_io::lemma_stored(t, at, b);
    process::law_stored_bytes_read_back(t.space.mem, at, b);
}

/// `NtClose` (0) and `CloseHandle` (7) free the handle, and the others stay; a
/// handle that is not open is refused.
#[verifier::spinoff_prover]
pub proof fn law_closed_handle_is_free(c: Caller, t: Tv, s: Sv, h: int)
    requires
        h == (c.frame.r10 as i32) as int,
    ensures
        task::obj_at(t.fds, h) is Some ==> (nt_ntdll::ntdll(0, 0, c, t, s) matches Some(
            (c2, t2, s2, Outcome::Return(r)),
        ) && r == 0 && task::obj_at(t2.fds, h) is None && forall|k: int|
            k != h ==> #[trigger] task::obj_at(t2.fds, k) == task::obj_at(t.fds, k)),
        task::obj_at(t.fds, h) is Some ==> (nt_kernel32::kernel32(7, 0, c, t, s) matches Some(
            (c2, t2, s2, Outcome::Return(r)),
        ) && r == 1 && task::obj_at(t2.fds, h) is None && forall|k: int|
            k != h ==> #[trigger] task::obj_at(t2.fds, k) == task::obj_at(t.fds, k)),
        task::obj_at(t.fds, h) is None ==> (nt_ntdll::ntdll(0, 0, c, t, s) matches Some(
            (c2, t2, s2, Outcome::Return(r)),
        ) && r == 0xC000_0008 && t2 == t && s2 == s),
{
    if task::obj_at(t.fds, h) is Some {
        let fds = t.fds.update(h, None);
        assert forall|k: int| k != h implies #[trigger] task::obj_at(fds, k) == task::obj_at(
            t.fds,
            k,
        ) by {
            if 0 <= k < t.fds.len() {
                assert(fds[k] == t.fds[k]);
            }
        }
    }
}

/// `NtCreateEvent` (13) stores at its first argument a handle that was free, and
/// that names an event of its own: signalled as its fifth argument says, one
/// that resets itself where its fourth says 1, and with nobody waiting.
#[verifier::spinoff_prover]
pub proof fn law_created_event_is_as_asked(c: Caller, t: Tv, s: Sv, initial: u64)
    requires
        nt_services::stack_argument(c, t, 5) == Some(initial),
        process::mapped(t.space.mem, c.frame.r10 as int, 8),
        t.fds.len() < 1024,
    ensures
        nt_ntdll::ntdll(13, 0, c, t, s) matches Some((c2, t2, s2, Outcome::Return(r))) && r == 0 && (
        process::word64(t2.space.mem, c.frame.r10 as int) matches Some(h) && task::obj_at(
            t.fds,
            h as int,
        ) is None && task::obj_at(t2.fds, h as int) == Some(Obj::Event(s.events.len() as int))
            && s2.events.len() == s.events.len() + 1 && s2.events.last().signaled == (initial % 256
            != 0) && (s2.events.last().mode == EventMode::Auto <==> c.frame.r9 == 1)
            && s2.events.last().waiters.len() == 0 && forall|k: int|
            0 <= k < s.events.len() ==> #[trigger] s2.events[k] == s.events[k]),
{
    assert(c.frame.rsp + (0x28 + 0 * 8) == c.frame.rsp + 0x28 + 8 * (5 - 5));
    let e = task::Fd { obj: Obj::Event(s.events.len() as int), cloexec: false };
    let (fds, h) = task::fd_put(t.fds, e);
    lemma_put(t.fds, e);
    lemma_poked64(Tv { fds, ..t }, c.frame.r10 as int, h as u64);
    assert(nt_ntdll::ntdll(13, 0, c, t, s) == nt_ntdll::nt_create_event(c, t, s));
    assert(nt_ntdll::stack(c, t, 0) == Some(initial));
}

proof fn lemma_poked64(t: Tv, at: int, v: u64)
    requires
        process::mapped(t.space.mem, at, 8),
    ensures
        task::poked(t, at, bytes::bytes64(v)) matches Some(t2) && process::word64(t2.space.mem, at)
            == Some(v) && t2.fds == t.fds,
{
    lemma_word64_kept(t.space.mem, at, v);
    posix_io::lemma_stored(t, at, bytes::bytes64(v));
}

proof fn lemma_free_slot(fds: Seq<Option<task::Fd>>, i: int)
    requires
        0 <= i <= fds.len(),
    ensures
        i <= task::free_slot(fds, i) <= fds.len(),
        task::free_slot(fds, i) < fds.len() ==> fds[task::free_slot(fds, i)] is None,
    decreases fds.len() - i,
{
    if i < fds.len() && fds[i] is Some {
        lemma_free_slot(fds, i + 1);
    }
}

proof fn lemma_put(fds: Seq<Option<task::Fd>>, e: task::Fd)
    requires
        fds.len() < 1024,
    ensures
        ({
            let (f, h) = task::fd_put(fds, e);
            &&& 0 <= h < 1024
            &&& task::obj_at(fds, h) is None
            &&& task::obj_at(f, h) == Some(e.obj)
        }),
{
    lemma_free_slot(fds, 0);
}

/// `RtlAddVectoredExceptionHandler` (18) arms the handler in its second
/// argument, and `RtlRemoveVectoredExceptionHandler` (19) disarms it.
#[verifier::spinoff_prover]
pub proof fn law_handler_is_armed_and_disarmed(c: Caller, t: Tv, s: Sv)
    requires
        process::mapped(t.space.mem, seh::PE_EXC_ADDR as int, 8),
    ensures
        nt_ntdll::ntdll(18, 0, c, t, s) matches Some((c2, t2, s2, Outcome::Return(r))) && r != 0
            && seh::armed_handler(t2.space.mem) == c.frame.rdx && s2 == s,
        nt_ntdll::ntdll(19, 0, c, t, s) matches Some((c2, t2, s2, Outcome::Return(r))) && r == 1
            && seh::armed_handler(t2.space.mem) == 0 && s2 == s,
{
    lemma_handler(c, t, s, c.frame.rdx, seh::PE_EXC_ADDR as i64);
    lemma_handler(c, t, s, 0, 1);
    assert(nt_ntdll::ntdll(18, 0, c, t, s) == nt_ntdll::handler_set(
        c,
        t,
        s,
        c.frame.rdx,
        seh::PE_EXC_ADDR as i64,
    ));
    assert(nt_ntdll::ntdll(19, 0, c, t, s) == nt_ntdll::handler_set(c, t, s, 0, 1));
}

proof fn lemma_handler(c: Caller, t: Tv, s: Sv, handler: u64, v: i64)
    requires
        process::mapped(t.space.mem, seh::PE_EXC_ADDR as int, 8),
    ensures
        nt_ntdll::handler_set(c, t, s, handler, v) matches Some((c2, t2, s2, o)) && o
            == Outcome::Return(v) && seh::armed_handler(t2.space.mem) == handler && s2 == s,
{
    lemma_poked64(t, seh::PE_EXC_ADDR as int, handler);
}

/// The attributes at `oa` name a key by its whole path: no root at 8, and at
/// 0x10 the place of the name.
pub open spec fn attributes_name(t: Tv, oa: u64, path: Seq<char>) -> bool {
    &&& oa != 0 && path.len() > 0
    &&& process::word64(t.space.mem, oa + 0x08) == Some(0u64)
    &&& process::word64(t.space.mem, oa + 0x10) matches Some(us) && nt_names::unicode(
        t.space.mem,
        us,
    ) == Some(path)
}

/// The attributes at `oa` name a key by a name below the one that the handle at
/// 8 is for.
pub open spec fn attributes_name_below(t: Tv, oa: u64, base: Seq<char>, name: Seq<char>) -> bool {
    &&& oa != 0
    &&& process::word64(t.space.mem, oa + 0x08) matches Some(root) && root != 0
        && task::regkey_at(t.fds, (root as i32) as int) == Some(base)
    &&& process::word64(t.space.mem, oa + 0x10) matches Some(us) && nt_names::unicode(
        t.space.mem,
        us,
    ) == Some(name)
}

/// `NtOpenKey` (23) opens a key that is there, and no other: the handle at its
/// first argument names the key of the attributes.
#[verifier::spinoff_prover]
pub proof fn law_open_key_names_the_key(c: Caller, t: Tv, s: Sv, path: Seq<char>)
    requires
        attributes_name(t, c.frame.r8, path),
        process::mapped(t.space.mem, c.frame.r10 as int, 8),
        t.fds.len() < 1024,
    ensures
        s.registry.contains_key(registry::comps(path)) ==> (nt_ntdll::ntdll(23, 0, c, t, s) matches Some(
            (c2, t2, s2, Outcome::Return(r)),
        ) && r == 0 && s2 == s && (process::word64(t2.space.mem, c.frame.r10 as int) matches Some(h)
            && task::regkey_at(t2.fds, h as int) == Some(
            text::join(registry::comps(path), '\\'),
        ))),
        !s.registry.contains_key(registry::comps(path)) ==> (nt_ntdll::ntdll(23, 0, c, t, s) matches Some(
            (c2, t2, s2, Outcome::Return(r)),
        ) && r == 0xC000_0034 && t2 == t && s2 == s),
{
    lemma_key_handle(t, path, c.frame.r10);
    assert(nt_ntdll::attr_path(t, c.frame.r8) == Some(Some(path)));
    assert(nt_ntdll::ntdll(23, 0, c, t, s) == nt_ntdll::nt_open_key(c, t, s));
}

proof fn lemma_key_handle(t: Tv, path: Seq<char>, at: u64)
    requires
        process::mapped(t.space.mem, at as int, 8),
        t.fds.len() < 1024,
    ensures
        nt_ntdll::key_handle(t, path, at) matches Some(Ok(t2)) && (process::word64(
            t2.space.mem,
            at as int,
        ) matches Some(h) && task::regkey_at(t2.fds, h as int) == Some(
            text::join(registry::comps(path), '\\'),
        )),
{
    let e = task::Fd { obj: Obj::RegKey(text::join(registry::comps(path), '\\')), cloexec: false };
    let (fds, h) = task::fd_put(t.fds, e);
    lemma_put(t.fds, e);
    lemma_poked64(Tv { fds, ..t }, at as int, h as u64);
}

/// `NtCreateKey` (22) makes the key where it is not there, under the key of the
/// handle in the attributes where there is one, and gives a handle for it; it
/// does not touch the values of a key that is there.
#[verifier::spinoff_prover]
pub proof fn law_create_key_makes_the_key(
    c: Caller,
    t: Tv,
    s: Sv,
    base: Option<Seq<char>>,
    name: Seq<char>,
)
    requires
        base is None ==> attributes_name(t, c.frame.r8, name),
        base is Some ==> attributes_name_below(t, c.frame.r8, base->0, name),
        process::mapped(t.space.mem, c.frame.r10 as int, 8),
        t.fds.len() < 1024,
        nt_services::stack_argument(c, t, 7) == Some(0u64),
        c.frame.r10 + 8 <= c.frame.rsp,
        registry::comps(match base {
            Some(b) => b.push('\\') + name,
            None => name,
        }).len() > 0,
    ensures
        ({
            let p = registry::comps(match base {
                Some(b) => b.push('\\') + name,
                None => name,
            });
            nt_ntdll::ntdll(22, 0, c, t, s) matches Some((c2, t2, s2, Outcome::Return(r))) && r == 0
                && s2.registry == registry::made(s.registry, p) && (process::word64(
                t2.space.mem,
                c.frame.r10 as int,
            ) matches Some(h) && task::regkey_at(t2.fds, h as int) == Some(text::join(p, '\\')))
        }),
{
    let path = match base {
        Some(b) => b.push('\\') + name,
        None => name,
    };
    let at = c.frame.rsp + (0x28 + 2 * 8);
    assert(at == c.frame.rsp + 0x28 + 8 * (7 - 5));
    lemma_key_handle(t, path, c.frame.r10);
    lemma_key_handle_spares(t, path, c.frame.r10, at);
    assert(nt_ntdll::attr_path(t, c.frame.r8) == Some(Some(path)));
    assert(nt_ntdll::ntdll(22, 0, c, t, s) == nt_ntdll::nt_create_key(c, t, s));
    let t2 = nt_ntdll::key_handle(t, path, c.frame.r10)->0->Ok_0;
    assert(nt_ntdll::stack(c, t2, 2) == Some(0u64));
}

proof fn lemma_key_handle_spares(t: Tv, path: Seq<char>, at: u64, x: int)
    requires
        process::mapped(t.space.mem, at as int, 8),
        t.fds.len() < 1024,
        at + 8 <= x,
        process::word64(t.space.mem, x) is Some,
    ensures
        nt_ntdll::key_handle(t, path, at) matches Some(Ok(t2)) && process::word64(t2.space.mem, x)
            == process::word64(t.space.mem, x),
{
    let e = task::Fd { obj: Obj::RegKey(text::join(registry::comps(path), '\\')), cloexec: false };
    let (fds, h) = task::fd_put(t.fds, e);
    let b = bytes::bytes64(h as u64);
    lemma_put(t.fds, e);
    posix_io::lemma_stored(Tv { fds, ..t }, at as int, b);
    let m = process::poke(t.space.mem, at as int, b);
    assert(process::peek(m, x, 8) =~= process::peek(t.space.mem, x, 8)) by {
        assert forall|i: int| 0 <= i < 8 implies m[x + i] == #[trigger] t.space.mem[x + i] by {
            assert(t.space.mem.contains_key(x + i));
        }
    }
    assert(process::mapped(m, x, 8)) by {
        assert forall|i: int| x <= i < x + 8 implies #[trigger] m.contains_key(i) by {
            assert(t.space.mem.contains_key(i));
        }
    }
}

/// `LdrGetProcedureAddress` (7) stores the address of the export at its fourth
/// argument: by the name that its second leads to, or by its third, a number,
/// where there is no name. `GetProcAddress` (16) returns it: by the name at its
/// second argument, or by that as a number where it is small.
#[verifier::spinoff_prover]
pub proof fn law_procedure_address_is_that_of_the_export(
    c: Caller,
    t: Tv,
    s: Sv,
    name: Seq<char>,
    buf: u64,
    a: i64,
    b: i64,
)
    requires
        a > 0,
        b > 0,
        process::mapped(t.space.mem, c.frame.r9 as int, 8),
        c.frame.r9 != 0,
        nt_names::latin(t.space.mem, buf) == Some(name),
        nt_names::name_addr(t.space.mem, c.gsbase, c.frame.r10, name, 0) == Some(a),
    ensures
        c.frame.rdx != 0 && process::word64(t.space.mem, c.frame.rdx + 8) == Some(buf) ==> (
        nt_ntdll::ntdll(7, 0, c, t, s) matches Some((c2, t2, s2, Outcome::Return(r))) && r == 0
            && process::word64(t2.space.mem, c.frame.r9 as int) == Some(a as u64)),
        c.frame.rdx == 0 && nt_names::ordinal_addr(
            t.space.mem,
            c.gsbase,
            c.frame.r10,
            c.frame.r8 as u16,
            0,
        ) == Some(b) ==> (nt_ntdll::ntdll(7, 0, c, t, s) matches Some(
            (c2, t2, s2, Outcome::Return(r)),
        ) && r == 0 && process::word64(t2.space.mem, c.frame.r9 as int) == Some(b as u64)),
        c.frame.rdx == buf && buf >= 0x1_0000 ==> (nt_kernel32::kernel32(16, 0, c, t, s) matches Some(
            (c2, t2, s2, Outcome::Return(r)),
        ) && r == a && t2 == t),
        c.frame.rdx < 0x1_0000 && nt_names::ordinal_addr(
            t.space.mem,
            c.gsbase,
            c.frame.r10,
            c.frame.rdx as u16,
            0,
        ) == Some(b) ==> (nt_kernel32::kernel32(16, 0, c, t, s) matches Some(
            (c2, t2, s2, Outcome::Return(r)),
        ) && r == b && t2 == t),
{
    lemma_put64(c, t, s, c.frame.r9, a as u64);
    lemma_put64(c, t, s, c.frame.r9, b as u64);
    assert(nt_ntdll::ntdll(7, 0, c, t, s) == nt_ntdll::ldr_proc(c, t, s));
    assert(nt_kernel32::kernel32(16, 0, c, t, s) == nt_kernel32::get_proc_address(c, t, s));
}

/// `LdrLoadDll` (8) stores the base of the module whose name its third argument
/// gives at its fourth, and `LoadLibraryA` (17) returns that of the module whose
/// name its first gives.
#[verifier::spinoff_prover]
pub proof fn law_loaded_module_is_the_one_named(
    c: Caller,
    t: Tv,
    s: Sv,
    name: Seq<char>,
    base: u64,
)
    requires
        0 < base <= i64::MAX,
        c.frame.r9 != 0,
        process::mapped(t.space.mem, c.frame.r9 as int, 8),
        nt_names::module_base(t.space.mem, c.gsbase, nt_names::mod_name(name)) == Some(base),
    ensures
        nt_names::unicode(t.space.mem, c.frame.r8) == Some(name) ==> (nt_ntdll::ntdll(
            8,
            0,
            c,
            t,
            s,
        ) matches Some((c2, t2, s2, Outcome::Return(r))) && r == 0 && process::word64(
            t2.space.mem,
            c.frame.r9 as int,
        ) == Some(base)),
        nt_names::latin(t.space.mem, c.frame.r10) == Some(name) ==> (nt_kernel32::kernel32(
            17,
            0,
            c,
            t,
            s,
        ) matches Some((c2, t2, s2, Outcome::Return(r))) && r == base && t2 == t),
{
    lemma_put64(c, t, s, c.frame.r9, base);
    assert(nt_ntdll::ntdll(8, 0, c, t, s) == nt_ntdll::ldr_load(c, t, s));
    assert(nt_kernel32::kernel32(17, 0, c, t, s) == nt_kernel32::module_handle(
        c,
        t,
        s,
        c.frame.r10,
    ));
}

/// `NtQueryInformationProcess` (9) tells where the environment block is, which
/// the thread's block has at 0x60, and the process id: at 8 and at 32 of what
/// its third argument leads to.
#[verifier::spinoff_prover]
pub proof fn law_process_information_is_told(c: Caller, t: Tv, s: Sv, peb: u64)
    requires
        nt_services::stack_argument(c, t, 5) == Some(0u64),
        c.frame.rdx == 0,
        c.frame.r9 >= 0x30,
        c.gsbase != 0,
        process::word64(t.space.mem, c.gsbase + 0x60) == Some(peb),
        process::mapped(t.space.mem, c.frame.r8 as int, 0x30),
    ensures
        nt_ntdll::ntdll(9, 0, c, t, s) matches Some((c2, t2, s2, Outcome::Return(r))) && r == 0
            && process::word64(t2.space.mem, c.frame.r8 + 8) == Some(peb) && process::word64(
            t2.space.mem,
            c.frame.r8 + 32,
        ) == Some(t.pid),
{
    assert(c.frame.rsp + (0x28 + 0 * 8) == c.frame.rsp + 0x28 + 8 * (5 - 5));
    lemma_told(t, c.frame.r8 as int, peb);
    assert(nt_ntdll::ntdll(9, 0, c, t, s) == nt_ntdll::nt_query_process(c, t, s));
    assert(nt_ntdll::stack(c, t, 0) == Some(0u64));
    assert(nt_ntdll::peb_of(c, t) == Some(peb));
}

proof fn lemma_told(t: Tv, at: int, peb: u64)
    requires
        process::mapped(t.space.mem, at, 0x30),
    ensures
        task::poked(t, at, nt_ntdll::basic_info(peb, t.pid)) matches Some(t2) && process::word64(
            t2.space.mem,
            at + 8,
        ) == Some(peb) && process::word64(t2.space.mem, at + 32) == Some(t.pid),
{
    let b = nt_ntdll::basic_info(peb, t.pid);
    posix_io::lemma_stored(t, at, b);
    process::law_stored_bytes_read_back(t.space.mem, at, b);
    let n = process::poke(t.space.mem, at, b);
    assert(process::mapped(n, at, 0x30)) by {
        assert forall|i: int| at <= i < at + 0x30 implies #[trigger] n.contains_key(i) by {
            assert(t.space.mem.contains_key(i));
        }
    }
    assert(b.subrange(8, 16) =~= bytes::bytes64(peb));
    assert(b.subrange(32, 40) =~= bytes::bytes64(t.pid));
    lemma_inside(n, at, b, 8, peb);
    lemma_inside(n, at, b, 32, t.pid);
}

proof fn lemma_inside(n: Map<int, u8>, at: int, b: Seq<u8>, off: int, v: u64)
    requires
        process::mapped(n, at, b.len() as int),
        process::peek(n, at, b.len()) == b,
        0 <= off,
        off + 8 <= b.len(),
        b.subrange(off, off + 8) == bytes::bytes64(v),
    ensures
        process::word64(n, at + off) == Some(v),
{
    let w = bytes::bytes64(v);
    assert(process::mapped(n, at + off, 8)) by {
        assert forall|i: int| at + off <= i < at + off + 8 implies #[trigger] n.contains_key(i) by {}
    }
    assert forall|i: int| 0 <= i < 8 implies n[at + off + i] == #[trigger] w[i] by {
        assert(b.subrange(off, off + 8)[i] == b[off + i]);
        assert(process::peek(n, at, b.len())[off + i] == n[at + (off + i)]);
    }
    assert(process::peek(n, at + off, 8) =~= w);
    bytes::lemma_le64_of_splice(w, 0, v);
    assert(bytes::splice(w, 0, w) =~= w);
}

} // verus!
