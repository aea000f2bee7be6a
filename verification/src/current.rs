//! The running thread's task. A kernel thread has none; each function says
//! what it answers then.
use vstd::prelude::*;

use crate::apc::ApcEntry;
use crate::spawn;
use crate::sys;
use crate::sys::{Caller, Sys};
use crate::task;
use crate::task::{Fd, Obj, Task, Tv, Waitable};

verus! {

/// The errno for a descriptor that is not open.
pub const EBADF: i32 = -9;

/// The task, if there is one, is well formed.
pub open spec fn wf(cur: Option<Task>) -> bool {
    cur matches Some(t) ==> t.wf()
}

/// The task's user id; 0 without a task.
pub fn current_uid(cur: &Option<Task>) -> (r: u32)
    ensures
        r == match *cur {
            Some(t) => t@.uid,
            None => 0,
        },
{
    match cur {
        Some(t) => t.uid(),
        None => 0,
    }
}

/// The task's process id; 0 without a task.
pub fn current_pid(cur: &Option<Task>) -> (r: u64)
    ensures
        r == match *cur {
            Some(t) => t@.pid,
            None => 0,
        },
{
    match cur {
        Some(t) => t.pid(),
        None => 0,
    }
}

/// The process id of the task's parent; 0 without a task.
pub fn current_ppid(cur: &Option<Task>) -> (r: u64)
    ensures
        r == match *cur {
            Some(t) => t@.ppid,
            None => 0,
        },
{
    match cur {
        Some(t) => t.ppid(),
        None => 0,
    }
}

/// The running thread's id: two threads of one process differ in it.
pub fn current_tid(c: &Caller) -> (r: u64)
    ensures
        r == c.tid,
{
    c.tid
}

/// The working directory; the root without a task.
pub fn current_cwd(cur: &Option<Task>) -> (r: Vec<char>)
    ensures
        r@ == match *cur {
            Some(t) => t@.cwd,
            None => seq!['/'],
        },
{
    match cur {
        Some(t) => t.cwd(),
        None => {
            let r = vec!['/'];
            assert(r@ =~= seq!['/']);
            r
        },
    }
}

/// Set the working directory.
pub fn set_current_cwd(cur: &mut Option<Task>, path: Vec<char>)
    requires
        wf(*old(cur)),
    ensures
        wf(*final(cur)),
        spawn::task_view(*final(cur)) == match spawn::task_view(*old(cur)) {
            Some(t) => Some(Tv { cwd: path@, ..t }),
            None => None,
        },
{
    match cur {
        Some(t) => t.set_cwd(path),
        None => {},
    }
}

/// The open file behind a descriptor.
pub fn current_fd(cur: &Option<Task>, fd: i32) -> (r: Option<usize>)
    requires
        wf(*cur),
    ensures
        match *cur {
            Some(t) => match task::file_at(t@.fds, fd as int) {
                Some(i) => r is Some && r->0 == i,
                None => r is None,
            },
            None => r is None,
        },
{
    match cur {
        Some(t) => t.fd_get(fd),
        None => None,
    }
}

/// The event a handle names.
pub fn current_event(cur: &Option<Task>, h: i32) -> (r: Option<usize>)
    requires
        wf(*cur),
    ensures
        match *cur {
            Some(t) => match task::event_at(t@.fds, h as int) {
                Some(i) => r is Some && r->0 == i,
                None => r is None,
            },
            None => r is None,
        },
{
    match cur {
        Some(t) => t.handle_event(h),
        None => None,
    }
}

/// The event, semaphore or mutant a handle names.
pub fn current_waitable(cur: &Option<Task>, h: i32) -> (r: Option<Waitable>)
    requires
        wf(*cur),
    ensures
        match *cur {
            Some(t) => match task::obj_at(t@.fds, h as int) {
                Some(Obj::Event(i)) => r matches Some(Waitable::Event(j)) && j == i,
                Some(Obj::Semaphore(i)) => r matches Some(Waitable::Semaphore(j)) && j == i,
                Some(Obj::Mutant(i)) => r matches Some(Waitable::Mutant(j)) && j == i,
                _ => r is None,
            },
            None => r is None,
        },
{
    match cur {
        Some(t) => t.handle_waitable(h),
        None => None,
    }
}

/// The path of the registry key a handle names.
pub fn current_regkey(cur: &Option<Task>, h: i32) -> (r: Option<Vec<char>>)
    requires
        wf(*cur),
    ensures
        match *cur {
            Some(t) => match task::regkey_at(t@.fds, h as int) {
                Some(p) => r is Some && r->0@ == p,
                None => r is None,
            },
            None => r is None,
        },
{
    match cur {
        Some(t) => t.handle_regkey(h),
        None => None,
    }
}

/// The task's table with `obj` at the lowest free handle, and the handle; -1
/// without a task.
pub open spec fn object_put(cur: Option<Tv>, obj: Obj) -> (Option<Tv>, int) {
    match cur {
        Some(t) => {
            let (fds, i) = task::fd_put(t.fds, Fd { obj, cloexec: false });
            (Some(Tv { fds, ..t }), i)
        },
        None => (cur, -1),
    }
}

pub fn current_alloc_event(cur: &mut Option<Task>, ev: usize) -> (r: i32)
    requires
        wf(*old(cur)),
    ensures
        wf(*final(cur)),
        (spawn::task_view(*final(cur)), r as int) == object_put(
            spawn::task_view(*old(cur)),
            Obj::Event(ev as int),
        ),
{
    match cur {
        Some(t) => t.handle_alloc_event(ev),
        None => -1,
    }
}

pub fn current_alloc_semaphore(cur: &mut Option<Task>, s: usize) -> (r: i32)
    requires
        wf(*old(cur)),
    ensures
        wf(*final(cur)),
        (spawn::task_view(*final(cur)), r as int) == object_put(
            spawn::task_view(*old(cur)),
            Obj::Semaphore(s as int),
        ),
{
    match cur {
        Some(t) => t.handle_alloc_semaphore(s),
        None => -1,
    }
}

pub fn current_alloc_mutant(cur: &mut Option<Task>, m: usize) -> (r: i32)
    requires
        wf(*old(cur)),
    ensures
        wf(*final(cur)),
        (spawn::task_view(*final(cur)), r as int) == object_put(
            spawn::task_view(*old(cur)),
            Obj::Mutant(m as int),
        ),
{
    match cur {
        Some(t) => t.handle_alloc_mutant(m),
        None => -1,
    }
}

pub fn current_alloc_regkey(cur: &mut Option<Task>, path: Vec<char>) -> (r: i32)
    requires
        wf(*old(cur)),
    ensures
        wf(*final(cur)),
        (spawn::task_view(*final(cur)), r as int) == object_put(
            spawn::task_view(*old(cur)),
            Obj::RegKey(path@),
        ),
{
    match cur {
        Some(t) => t.handle_alloc_regkey(path),
        None => -1,
    }
}

/// Queue a user APC; false without a task.
pub fn current_queue_apc(cur: &mut Option<Task>, e: ApcEntry) -> (r: bool)
    requires
        wf(*old(cur)),
    ensures
        wf(*final(cur)),
        r == (*old(cur) is Some),
        spawn::task_view(*final(cur)) == match spawn::task_view(*old(cur)) {
            Some(t) => Some(Tv { apcs: t.apcs.push(e), ..t }),
            None => None,
        },
{
    match cur {
        Some(t) => {
            t.apc_queue(e);
            true
        },
        None => false,
    }
}

/// Take the oldest pending user APC.
pub fn current_take_apc(cur: &mut Option<Task>) -> (r: Option<ApcEntry>)
    requires
        wf(*old(cur)),
    ensures
        wf(*final(cur)),
        match spawn::task_view(*old(cur)) {
            Some(t) => if t.apcs.len() > 0 {
                &&& r == Some(t.apcs[0])
                &&& spawn::task_view(*final(cur)) == Some(Tv { apcs: t.apcs.skip(1), ..t })
            } else {
                &&& r is None
                &&& spawn::task_view(*final(cur)) == Some(t)
            },
            None => r is None && *final(cur) is None,
        },
{
    match cur {
        Some(t) => t.apc_take(),
        None => None,
    }
}

/// Whether a user APC is queued.
pub fn current_apc_pending(cur: &Option<Task>) -> (r: bool)
    ensures
        r == match *cur {
            Some(t) => t@.apcs.len() > 0,
            None => false,
        },
{
    match cur {
        Some(t) => t.apc_pending(),
        None => false,
    }
}

/// Duplicate a descriptor to the lowest free one at or above `min`.
pub fn current_fd_dup(cur: &mut Option<Task>, s: &mut Sys, oldfd: i32, min: i32) -> (r: i32)
    requires
        wf(*old(cur)),
        old(s).wf(),
    ensures
        wf(*final(cur)),
        final(s).wf(),
        match spawn::task_view(*old(cur)) {
            Some(t) => {
                let (t2, s2, n) = sys::duped(t, old(s)@, oldfd, min);
                r == n && spawn::task_view(*final(cur)) == Some(t2) && final(s)@ == s2
            },
            None => r == EBADF && *final(cur) is None && final(s)@ == old(s)@,
        },
{
    match cur {
        Some(t) => sys::dup(t, s, oldfd, min),
        None => EBADF,
    }
}

/// Make `newfd` name what `oldfd` names.
pub fn current_fd_dup2(cur: &mut Option<Task>, s: &mut Sys, oldfd: i32, newfd: i32) -> (r: i32)
    requires
        wf(*old(cur)),
        old(s).wf(),
    ensures
        wf(*final(cur)),
        final(s).wf(),
        match spawn::task_view(*old(cur)) {
            Some(t) => {
                let (t2, s2, n) = sys::forced(t, old(s)@, oldfd, newfd, false);
                r == n && spawn::task_view(*final(cur)) == Some(t2) && final(s)@ == s2
            },
            None => r == EBADF && *final(cur) is None && final(s)@ == old(s)@,
        },
{
    current_fd_dup3(cur, s, oldfd, newfd, false)
}

/// The same, with a close-on-exec flag for the new descriptor.
pub fn current_fd_dup3(
    cur: &mut Option<Task>,
    s: &mut Sys,
    oldfd: i32,
    newfd: i32,
    cloexec: bool,
) -> (r: i32)
    requires
        wf(*old(cur)),
        old(s).wf(),
    ensures
        wf(*final(cur)),
        final(s).wf(),
        match spawn::task_view(*old(cur)) {
            Some(t) => {
                let (t2, s2, n) = sys::forced(t, old(s)@, oldfd, newfd, cloexec);
                r == n && spawn::task_view(*final(cur)) == Some(t2) && final(s)@ == s2
            },
            None => r == EBADF && *final(cur) is None && final(s)@ == old(s)@,
        },
{
    match cur {
        Some(t) => sys::dup3(t, s, oldfd, newfd, cloexec),
        None => EBADF,
    }
}

/// The close-on-exec flag as 0 or 1, or an error.
pub fn current_fd_get_cloexec(cur: &Option<Task>, fd: i32) -> (r: i32)
    requires
        wf(*cur),
    ensures
        r == match *cur {
            Some(t) => task::cloexec_of(t@.fds, fd as int),
            None => EBADF as int,
        },
{
    match cur {
        Some(t) => t.fd_get_cloexec(fd),
        None => EBADF,
    }
}

/// Set the close-on-exec flag: 0, or an error.
pub fn current_fd_set_cloexec(cur: &mut Option<Task>, fd: i32, on: bool) -> (r: i32)
    requires
        wf(*old(cur)),
    ensures
        wf(*final(cur)),
        match spawn::task_view(*old(cur)) {
            Some(t) => {
                let (fds, n) = task::cloexec_set(t.fds, fd as int, on);
                r == n && spawn::task_view(*final(cur)) == Some(Tv { fds, ..t })
            },
            None => r == EBADF && *final(cur) is None,
        },
{
    match cur {
        Some(t) => t.fd_set_cloexec(fd, on),
        None => EBADF,
    }
}

/// Record the exit status of the task and drop its descriptors; whoever waits
/// for a child is woken.
pub fn set_exit_status(cur: &mut Option<Task>, s: &mut Sys, code: i32)
    requires
        wf(*old(cur)),
        old(s).wf(),
    ensures
        wf(*final(cur)),
        final(s).wf(),
        match spawn::task_view(*old(cur)) {
            Some(t) => {
                let (t2, s2) = sys::status_set(t, old(s)@, code);
                spawn::task_view(*final(cur)) == Some(t2) && final(s)@ == s2
            },
            None => *final(cur) is None && final(s)@ == sys::parents_woken(old(s)@),
        },
{
    match cur {
        Some(t) => sys::set_status(t, s, code),
        None => sys::wake_parents(s),
    }
}

} // verus!
