//! Process ids, and what becomes of a task that has ended.

use vstd::prelude::*;

use crate::file;
use crate::nt_kernel32;
use crate::nt_ntdll;
use crate::process;
use crate::process::Space;
use crate::spawn;
use crate::sys;
use crate::sys::{Caller, Outcome, Sv, Sys};
use crate::syscall;
use crate::syscall_fs;
use crate::task;
use crate::task::Tv;

verus! {

/// No id was given out that is still to come.
pub open spec fn ids_below(s: Sv) -> bool {
    forall|i: int| 0 <= i < s.tasks.len() ==> (#[trigger] s.tasks[i]).pid < s.next_pid
}

/// No task in the table has this id.
pub open spec fn absent(s: Sv, pid: u64) -> bool {
    forall|i: int| 0 <= i < s.tasks.len() ==> (#[trigger] s.tasks[i]).pid != pid
}

/// A table has at most one task with a process id.
pub proof fn law_process_ids_are_unique(s: Sys, i: int, j: int)
    requires
        s.wf(),
        0 <= i < s@.tasks.len(),
        0 <= j < s@.tasks.len(),
        s@.tasks[i].pid == s@.tasks[j].pid,
    ensures
        i == j,
{
}

proof fn lemma_joined(s: Sv, t: Tv, s2: Sv)
    requires
        sys::by_pid(s.tasks),
        ids_below(s),
        s.next_pid < u64::MAX,
        t.pid == s.next_pid,
        s2.next_pid == s.next_pid + 1,
        s2.tasks == spawn::placed(s.tasks, t),
    ensures
        absent(s, s.next_pid),
        s2.tasks == s.tasks.push(t),
        ids_below(s2),
        forall|pid: u64| absent(s, pid) && pid != s.next_pid ==> #[trigger] absent(s2, pid),
{
    spawn::lemma_placed(s.tasks, t);
    assert forall|i: int| 0 <= i < s2.tasks.len() implies (#[trigger] s2.tasks[i]).pid
        < s2.next_pid by {
        if i < s.tasks.len() {
            assert(s2.tasks[i] == s.tasks[i]);
        }
    }
    assert forall|pid: u64| absent(s, pid) && pid != s.next_pid implies #[trigger] absent(
        s2,
        pid,
    ) by {
        assert forall|i: int| 0 <= i < s2.tasks.len() implies (#[trigger] s2.tasks[i]).pid
            != pid by {
            if i < s.tasks.len() {
                assert(s2.tasks[i] == s.tasks[i]);
            }
        }
    }
}

/// A program that is started gets an id that no task has. (The ids run out after
/// the last 64-bit number.)
pub proof fn law_started_program_has_a_new_pid(s: Sv, space: Space, free: Seq<u64>)
    requires
        sys::by_pid(s.tasks),
        ids_below(s),
        s.next_pid < u64::MAX,
    ensures
        absent(s, s.next_pid),
        ({
            let s2 = spawn::entered(s, space, free);
            &&& s2.tasks.drop_last() == s.tasks
            &&& s2.tasks.last().pid == s.next_pid
            &&& ids_below(s2)
        }),
{
    let t = task::task_new(s.files, s.next_pid, 0, s.session_uid, space);
    let s2 = spawn::entered(s, space, free);
    lemma_joined(s, t, s2);
    assert(s2.tasks.drop_last() =~= s.tasks);
}

/// So does the child of a `fork`; it is not its parent's either.
pub proof fn law_forked_child_has_a_new_pid(t: Tv, s: Sv, c: Caller, s2: Sv, o: Outcome)
    requires
        sys::by_pid(s.tasks),
        ids_below(s),
        s.next_pid < u64::MAX,
        t.pid < s.next_pid,
        absent(s, t.pid),
        spawn::forked(t, s, c, s2, o),
        o is Fork,
    ensures
        absent(s, s.next_pid),
        s2.tasks.drop_last() == s.tasks,
        s2.tasks.last().pid == s.next_pid,
        s2.tasks.last().ppid == t.pid,
        s2.tasks.last().pid != t.pid,
        ids_below(s2),
        absent(s2, t.pid),
        t.pid < s2.next_pid,
{
    let space = spawn::task_of(s2.tasks, s.next_pid).space;
    let child = task::child_of(t, s.next_pid, s.session_uid, space);
    lemma_joined(s, child, s2);
    assert(s2.tasks.drop_last() =~= s.tasks);
}

/// A task that is put back is there, and no other task with another id is moved
/// out.
pub proof fn law_parked_tasks_stay(s: Sv, t: Tv)
    requires
        sys::by_pid(s.tasks),
    ensures
        sys::by_pid(spawn::parked(s, t).tasks),
        spawn::parked(s, t).tasks.contains(t),
        forall|i: int|
            0 <= i < s.tasks.len() && (#[trigger] s.tasks[i]).pid != t.pid ==> spawn::parked(
                s,
                t,
            ).tasks.contains(s.tasks[i]),
        ids_below(s) && t.pid < s.next_pid ==> ids_below(spawn::parked(s, t)),
{
    spawn::lemma_placed(s.tasks, t);
    let s2 = spawn::parked(s, t);
    if ids_below(s) && t.pid < s.next_pid {
        assert forall|i: int| 0 <= i < s2.tasks.len() implies (#[trigger] s2.tasks[i]).pid
            < s2.next_pid by {
            if s2.tasks[i].pid != t.pid {
                assert(s.tasks.contains(s2.tasks[i]));
            }
        }
    }
}

/// A task whose exit status is set holds no descriptor and has its status; its
/// id, its parent, its directory and every other task are as they were. Its
/// process has ended, while it still runs and once it is put back in the table,
/// where it then is.
pub proof fn law_ended_task_stays_in_the_table(t: Tv, s: Sv, code: i32, fd: int)
    requires
        sys::by_pid(s.tasks),
        absent(s, t.pid),
    ensures
        ({
            let (dead, s1) = sys::status_set(t, s, code);
            let s2 = spawn::parked(s1, dead);
            &&& sys::ended(t, s, code).0 == dead
            &&& sys::ended(t, s, code).1.tasks == s.tasks
            &&& s1.tasks == s.tasks
            &&& (dead.pid, dead.ppid) == (t.pid, t.ppid)
            &&& dead.cwd == t.cwd
            &&& dead.exited
            &&& dead.exit_status == Some(code)
            &&& task::file_at(dead.fds, fd) is None
            &&& task::obj_at(dead.fds, fd) is None
            &&& task::cloexec_of(dead.fds, fd) == -9
            &&& spawn::has_ended(Some(dead), s1.tasks, t.pid)
            &&& s2.tasks.contains(dead)
            &&& forall|i: int|
                0 <= i < s.tasks.len() ==> s2.tasks.contains(#[trigger] s.tasks[i])
            &&& spawn::has_ended(None, s2.tasks, t.pid)
            &&& forall|other: Tv|
                other.pid != t.pid ==> #[trigger] spawn::has_ended(Some(other), s2.tasks, t.pid)
        }),
{
    let (dead, s1) = sys::status_set(t, s, code);
    let s2 = spawn::parked(s1, dead);
    spawn::lemma_placed(s.tasks, dead);
    assert(s2.tasks == spawn::placed(s.tasks, dead));
    assert forall|i: int| 0 <= i < s2.tasks.len() && (#[trigger] s2.tasks[i]).pid
        == t.pid implies s2.tasks[i].exited by {
        assert(spawn::placed(s.tasks, dead)[i] == dead);
    }
}

/// The status of an ended task as `wait4` stores it.
pub open spec fn stored_status(t: Tv) -> u32 {
    let status = match t.exit_status {
        Some(v) => v,
        None => 0i32,
    };
    ((status & 0xFF) << 8) as u32
}

/// No `wait4` takes a task out of the table but the one of its parent, after it
/// has ended, that returns its process id; that one stores its status where it
/// is asked to.
pub proof fn law_only_the_parent_forgets_a_task(
    c: Caller,
    t: Tv,
    s: Sv,
    pid: i64,
    status_ptr: u64,
    i: int,
)
    requires
        sys::by_pid(s.tasks),
        0 <= i < s.tasks.len(),
        spawn::waited(c, t, s, pid, status_ptr) is Some,
    ensures
        ({
            let (_, t2, s2, o) = spawn::waited(c, t, s, pid, status_ptr)->0;
            s2.tasks.contains(s.tasks[i]) || {
                &&& s.tasks[i].exited
                &&& s.tasks[i].ppid == t.pid
                &&& o == Outcome::Return(s.tasks[i].pid as i64)
                &&& status_ptr != 0 ==> process::peek(t2.space.mem, status_ptr as int, 4)
                    == crate::bytes::bytes32(stored_status(s.tasks[i]))
            }
        }),
{
    spawn::lemma_zombie(s.tasks, t.pid, pid, 0);
    let z = spawn::zombie(s.tasks, t.pid, pid, 0);
    let (_, t2, s2, o) = spawn::waited(c, t, s, pid, status_ptr)->0;
    if z == s.tasks.len() {
        assert(s2.tasks[i] == s.tasks[i]);
    } else {
        spawn::lemma_removed(s.tasks, z);
        if i == z && status_ptr != 0 {
            process::law_stored_bytes_read_back(
                t.space.mem,
                status_ptr as int,
                crate::bytes::bytes32(stored_status(s.tasks[i])),
            );
        }
    }
}

proof fn lemma_pid_round_trip(p: u64)
    by (bit_vector)
    requires
        p < 0xFFFF_FFFF_FFFF_FFFF,
    ensures
        (p as i64) as u64 == p,
        p as i64 != -1i64,
{
}

/// A parent that waits for a child that has ended gets its process id and its
/// status, and the child is gone. (An id of all ones cannot be asked for: that
/// number asks for any child.)
pub proof fn law_parent_collects_its_ended_child(
    c: Caller,
    t: Tv,
    s: Sv,
    i: int,
    status_ptr: u64,
)
    requires
        sys::by_pid(s.tasks),
        0 <= i < s.tasks.len(),
        s.tasks[i].pid < u64::MAX,
        s.tasks[i].ppid == t.pid,
        s.tasks[i].exited,
        status_ptr != 0 ==> process::mapped(t.space.mem, status_ptr as int, 4),
    ensures
        ({
            let child = s.tasks[i];
            let step = spawn::waited(c, t, s, child.pid as i64, status_ptr);
            &&& step is Some
            &&& (step->0).2 == (Sv { tasks: s.tasks.remove(i), ..s })
            &&& (step->0).3 == Outcome::Return(child.pid as i64)
            &&& absent((step->0).2, child.pid)
            &&& status_ptr != 0 ==> process::peek((step->0).1.space.mem, status_ptr as int, 4)
                == crate::bytes::bytes32(stored_status(child))
        }),
{
    let child = s.tasks[i];
    let pid = child.pid as i64;
    lemma_pid_round_trip(child.pid);
    spawn::lemma_zombie(s.tasks, t.pid, pid, 0);
    let z = spawn::zombie(s.tasks, t.pid, pid, 0);
    assert(spawn::is_child(s.tasks[i], t.pid, pid));
    assert(z == i) by {
        if z < i {
            assert(s.tasks[z].pid < s.tasks[i].pid);
        } else if i < z {
            assert(z < s.tasks.len());
            assert(s.tasks[i].pid < s.tasks[z].pid);
        }
    }
    spawn::lemma_removed(s.tasks, i);
    if status_ptr != 0 {
        process::law_stored_bytes_read_back(
            t.space.mem,
            status_ptr as int,
            crate::bytes::bytes32(stored_status(child)),
        );
    }
}

/// The status that is set for a task reaches its parent: a `wait4` for it, once
/// it is back in the table, returns its process id and stores the low byte of
/// the code shifted up by eight bits. The table is then as it was without the
/// task.
pub proof fn law_exit_code_reaches_the_parent(
    c: Caller,
    t: Tv,
    s: Sv,
    code: i32,
    parent: Tv,
    status_ptr: u64,
)
    requires
        sys::by_pid(s.tasks),
        absent(s, t.pid),
        t.pid < u64::MAX,
        parent.pid == t.ppid,
        status_ptr != 0,
        process::mapped(parent.space.mem, status_ptr as int, 4),
    ensures
        ({
            let (dead, s1) = sys::status_set(t, s, code);
            let step = spawn::waited(c, parent, spawn::parked(s1, dead), t.pid as i64, status_ptr);
            &&& step is Some
            &&& (step->0).2 == s1
            &&& (step->0).3 == Outcome::Return(t.pid as i64)
            &&& process::peek((step->0).1.space.mem, status_ptr as int, 4)
                == crate::bytes::bytes32(((code & 0xFF) << 8) as u32)
            &&& s1.tasks == s.tasks
        }),
{
    let (dead, s1) = sys::status_set(t, s, code);
    let s2 = spawn::parked(s1, dead);
    spawn::lemma_placed(s.tasks, dead);
    spawn::lemma_place(s.tasks, dead.pid, 0);
    let p = spawn::place_of(s.tasks, dead.pid, 0);
    assert(s2.tasks == s.tasks.insert(p, dead));
    assert(s2.tasks[p] == dead);
    law_parent_collects_its_ended_child(c, parent, s2, p, status_ptr);
    assert(s2.tasks.remove(p) =~= s1.tasks);
}

// --- every call ---

/// The step leaves the table and the ids alone, and the caller its own.
pub open spec fn keeps(t: Tv, s: Sv, w: sys::Step) -> bool {
    w matches Some((_, t2, s2, _)) ==> t2.pid == t.pid && t2.ppid == t.ppid && s2.tasks == s.tasks
        && s2.next_pid == s.next_pid
}

proof fn lemma_polled_keeps(c: Caller, t: Tv, s: Sv, at: u64, n: u64, i: u64, ready: u64)
    ensures
        keeps(t, s, syscall::polled(c, t, s, at, n, i, ready)),
    decreases n - i,
{
    if i < n {
        match process::word32(t.space.mem, at + i * 8) {
            None => {},
            Some(fd) => {
                let bad = sys::file_of(t, s, fd as i32) is None;
                let mark = if bad {
                    0x20u16
                } else {
                    0
                };
                match task::poked(t, at + (i * 8 + 6), crate::bytes::bytes16(mark)) {
                    None => {},
                    Some(t2) => {
                        let r = if bad {
                            (ready + 1) as u64
                        } else {
                            ready
                        };
                        lemma_polled_keeps(c, t2, s, at, n, (i + 1) as u64, r);
                    },
                }
            },
        }
    }
}

proof fn lemma_writev_keeps(
    c: Caller,
    t: Tv,
    s: Sv,
    fd: u64,
    iov: u64,
    n: u64,
    i: u64,
    total: u64,
    skip: u64,
)
    ensures
        keeps(t, s, syscall_fs::writev_from(c, t, s, fd, iov, n, i, total, skip)),
    decreases n - i,
{
    if i < n {
        match (
            process::word64(t.space.mem, iov + i * 16),
            process::word64(t.space.mem, iov + (i * 16 + 8)),
        ) {
            (Some(base), Some(len)) => if 0 < skip && len <= skip {
                lemma_writev_keeps(
                    c,
                    t,
                    s,
                    fd,
                    iov,
                    n,
                    (i + 1) as u64,
                    total.wrapping_add(len),
                    (skip - len) as u64,
                );
            } else {
                match syscall_fs::write_call(c, t, s, fd, base, len, skip) {
                    Some((_, _, s2, Outcome::Return(r))) => {
                        lemma_writev_keeps(
                            c,
                            t,
                            s2,
                            fd,
                            iov,
                            n,
                            (i + 1) as u64,
                            total.wrapping_add(r as u64),
                            0,
                        );
                    },
                    _ => {},
                }
            },
            _ => {},
        }
    }
}

proof fn lemma_chunk_keeps(s: Sv, src: int, dst: int, count: u64, p: syscall_fs::Pg)
    ensures
        syscall_fs::chunk_sent(s, src, dst, count, p) matches Some((s2, _)) ==> s2.tasks == s.tasks
            && s2.next_pid == s.next_pid,
    decreases count - p.total, 0int,
{
    let (files, out, put) = file::file_write(s.files, s.out, dst, p.chunk, p.done as int);
    let s2 = Sv { files, out, ..s };
    match put {
        file::Put::Done(w) => if w >= 0 && !(w < p.chunk.len() || p.total + w > count || w == 0) {
            lemma_copied_keeps(s2, src, dst, count, (p.total + w) as u64);
        },
        _ => {},
    }
}

proof fn lemma_copied_keeps(s: Sv, src: int, dst: int, count: u64, total: u64)
    ensures
        syscall_fs::copied(s, src, dst, count, total) matches Some((s2, _)) ==> s2.tasks == s.tasks
            && s2.next_pid == s.next_pid,
    decreases count - total, 1int,
{
    if total < count {
        let want = file::least(count - total, 4096);
        let (files, con, got) = file::file_read(s.files, s.con, src, want);
        let s2 = Sv { files, con, ..s };
        match got {
            file::Gotten::Bytes(b) => {
                let p = syscall_fs::Pg { chunk: b, total, ..syscall_fs::fresh() };
                lemma_chunk_keeps(s2, src, dst, count, p);
            },
            _ => {},
        }
    }
}

proof fn lemma_file_call_keeps(c: Caller, t: Tv, s: Sv, done: u64)
    ensures
        syscall::file_call(c, t, s, done) matches Some(w) ==> keeps(t, s, w),
{
    let f = c.frame;
    lemma_polled_keeps(c, t, s, f.rdi, f.rsi, 0, 0);
    lemma_writev_keeps(c, t, s, f.rdi, f.rsi, f.rdx, 0, 0, done);
}

proof fn lemma_other_call_keeps(c: Caller, t: Tv, s: Sv)
    ensures
        c.frame.rax != syscall::SYS_WAIT4 ==> keeps(t, s, syscall::other_call(c, t, s)),
{
}

proof fn lemma_kernel32_keeps(idx: u16, done: u64, c: Caller, t: Tv, s: Sv)
    ensures
        keeps(t, s, nt_kernel32::kernel32(idx, done, c, t, s)),
{
}

#[verifier::rlimit(100)]
#[verifier::spinoff_prover]
proof fn lemma_ntdll_keeps(idx: u16, done: u64, c: Caller, t: Tv, s: Sv)
    ensures
        keeps(t, s, nt_ntdll::ntdll(idx, done, c, t, s)),
{
}

proof fn lemma_waited_keeps(c: Caller, t: Tv, s: Sv, pid: i64, status_ptr: u64)
    requires
        sys::by_pid(s.tasks),
    ensures
        spawn::waited(c, t, s, pid, status_ptr) matches Some((_, t2, s2, _)) ==> t2.pid == t.pid
            && t2.ppid == t.ppid && s2.next_pid == s.next_pid && sys::by_pid(s2.tasks) && forall|
            i: int,
        |
            0 <= i < s2.tasks.len() ==> s.tasks.contains(#[trigger] s2.tasks[i]),
{
    spawn::lemma_zombie(s.tasks, t.pid, pid, 0);
    let z = spawn::zombie(s.tasks, t.pid, pid, 0);
    if z < s.tasks.len() {
        spawn::lemma_removed(s.tasks, z);
    } else {
        assert forall|i: int| 0 <= i < s.tasks.len() implies s.tasks.contains(
            #[trigger] s.tasks[i],
        ) by {}
    }
}

/// No call but `fork` adds a task or gives out an id, and none but `wait4` takes
/// a task out of the table; whatever the call, the ids stay apart, and the
/// caller keeps its own.
pub proof fn law_calls_keep_ids_apart(
    c: Caller,
    t: Tv,
    s: Sv,
    p: syscall_fs::Pg,
    c2: Caller,
    t2: Tv,
    s2: Sv,
    p2: syscall_fs::Pg,
    o: Outcome,
)
    requires
        sys::by_pid(s.tasks),
        !syscall::forks(c),
        syscall::answered(syscall::served(c, t, s, p), c2, t2, s2, p2, o),
        o !is Fault,
        o !is Panic,
    ensures
        sys::by_pid(s2.tasks),
        ids_below(s) ==> ids_below(s2),
        s2.next_pid == s.next_pid,
        t2.pid == t.pid,
        t2.ppid == t.ppid,
        c.frame.rax != syscall::SYS_WAIT4 ==> s2.tasks == s.tasks,
        forall|i: int| 0 <= i < s2.tasks.len() ==> s.tasks.contains(#[trigger] s2.tasks[i]),
        absent(s, t.pid) ==> absent(s2, t.pid),
{
    let f = c.frame;
    let nr = f.rax;
    let w = syscall::served(c, t, s, p);
    let mid = (w->0).2;
    assert(s2.tasks == mid.tasks && s2.next_pid == mid.next_pid);
    if syscall::is_nt_call(nr) {
        let sel = (nr & 0xFFFF) as u16;
        if sel & crate::nt::NT_NTDLL_FLAG != 0 {
            lemma_ntdll_keeps(sel & !crate::nt::NT_NTDLL_FLAG, p.done, c, t, s);
        } else {
            lemma_kernel32_keeps(sel, p.done, c, t, s);
        }
    } else if nr == syscall::SYS_SENDFILE {
        lemma_sendfile_keeps(c, t, s, p, f.rdi, f.rsi, f.rdx, f.r10);
    } else if nr == syscall::SYS_WAIT4 {
        lemma_waited_keeps(c, t, s, f.rdi as i64, f.rsi);
    } else {
        lemma_file_call_keeps(c, t, s, p.done);
        lemma_other_call_keeps(c, t, s);
    }
    if s2.tasks == s.tasks {
        assert forall|i: int| 0 <= i < s2.tasks.len() implies s.tasks.contains(
            #[trigger] s2.tasks[i],
        ) by {
            assert(s.tasks[i] == s2.tasks[i]);
        }
    }
    if ids_below(s) {
        assert forall|i: int| 0 <= i < s2.tasks.len() implies (#[trigger] s2.tasks[i]).pid
            < s2.next_pid by {
            assert(s.tasks.contains(s2.tasks[i]));
        }
    }
    if absent(s, t.pid) {
        assert forall|i: int| 0 <= i < s2.tasks.len() implies (#[trigger] s2.tasks[i]).pid
            != t.pid by {
            assert(s.tasks.contains(s2.tasks[i]));
        }
    }
}

proof fn lemma_sendfile_keeps(
    c: Caller,
    t: Tv,
    s: Sv,
    p: syscall_fs::Pg,
    out_fd: u64,
    in_fd: u64,
    off_ptr: u64,
    count: u64,
)
    ensures
        syscall_fs::sendfile_call(c, t, s, p, out_fd, in_fd, off_ptr, count) matches Some(
            (_, t2, s2, _, _),
        ) ==> t2.pid == t.pid && t2.ppid == t.ppid && s2.tasks == s.tasks && s2.next_pid
            == s.next_pid,
{
    match (sys::file_of(t, s, in_fd as i32), sys::file_of(t, s, out_fd as i32)) {
        (Some(src), Some(dst)) => {
            let begin = p.total == 0 && p.chunk.len() == 0 && off_ptr != 0;
            let start = process::word64(t.space.mem, off_ptr as int);
            let files = if begin {
                file::file_seek(s.files, src, start->0 as i64, file::SEEK_SET).0
            } else {
                s.files
            };
            let s1 = Sv { files, ..s };
            lemma_chunk_keeps(
                s1,
                src,
                dst,
                count,
                syscall_fs::Pg { path: Seq::empty(), ..p },
            );
            lemma_copied_keeps(s1, src, dst, count, p.total);
        },
        _ => {},
    }
}

} // verus!
