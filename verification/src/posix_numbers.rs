//! Which system call each number stands for, and which register holds which
//! argument.
use vstd::prelude::*;

use crate::spawn;
use crate::sys::{Caller, Outcome, Sv, UserFrame};
use crate::syscall;
use crate::syscall_fs;
use crate::syscall_fs::Pg;
use crate::task;
use crate::task::Tv;

verus! {

/// The calls about files, by their numbers in the system's interface, with
/// their arguments in `rdi`, `rsi`, `rdx` and `r10` in this order.
pub proof fn law_numbers_name_the_calls_about_files(c: Caller, t: Tv, s: Sv, p: Pg)
    ensures
        ({
            let f = c.frame;
            let r = syscall::served(c, t, s, p);
            &&& f.rax == 0 ==> r == syscall::plain(
                syscall_fs::read_call(c, t, s, f.rdi, f.rsi, f.rdx),
            )
            &&& f.rax == 1 ==> r == syscall::plain(
                syscall_fs::write_call(c, t, s, f.rdi, f.rsi, f.rdx, p.done),
            )
            &&& f.rax == 2 ==> r == syscall::plain(syscall_fs::open_call(c, t, s, f.rdi))
            &&& f.rax == 257 ==> r == syscall::plain(syscall_fs::open_call(c, t, s, f.rsi))
            &&& f.rax == 5 ==> r == syscall::plain(syscall_fs::fstat_call(c, t, s, f.rdi, f.rsi))
            &&& f.rax == 262 ==> r == syscall::plain(
                syscall_fs::fstatat_call(c, t, s, f.rdi, f.rsi, f.rdx, f.r10),
            )
            &&& f.rax == 8 ==> r == syscall::plain(
                syscall_fs::seek_call(c, t, s, f.rdi, f.rsi, f.rdx),
            )
            &&& f.rax == 16 ==> r == syscall::plain(
                syscall_fs::ioctl_call(c, t, s, f.rdi, f.rsi, f.rdx),
            )
            &&& f.rax == 22 ==> r == syscall::plain(syscall_fs::pipe_call(c, t, s, f.rdi, 0))
            &&& f.rax == 293 ==> r == syscall::plain(
                syscall_fs::pipe_call(c, t, s, f.rdi, f.rsi),
            )
            &&& f.rax == 79 ==> r == syscall::plain(
                syscall_fs::getcwd_call(c, t, s, f.rdi, f.rsi),
            )
            &&& f.rax == 80 ==> r == syscall::plain(syscall_fs::chdir_call(c, t, s, f.rdi))
            &&& f.rax == 217 ==> r == syscall::plain(
                syscall_fs::getdents_call(c, t, s, f.rdi, f.rsi, f.rdx),
            )
            &&& f.rax == 40 ==> r == syscall_fs::sendfile_call(
                c,
                t,
                s,
                p,
                f.rdi,
                f.rsi,
                f.rdx,
                f.r10,
            )
            &&& f.rax == 87 ==> r == syscall::unlink_call(c, t, s, f.rdi, false)
            &&& f.rax == 84 ==> r == syscall::unlink_call(c, t, s, f.rdi, true)
            &&& f.rax == 72 ==> r == syscall::plain(
                syscall::fcntl_call(c, t, s, f.rdi, f.rsi, f.rdx),
            )
            &&& f.rax == 7 ==> r == syscall::plain(
                syscall::polled(c, t, s, f.rdi, f.rsi, 0, 0),
            )
        }),
{
}

/// The calls about processes and their memory.
pub proof fn law_numbers_name_the_calls_about_processes(c: Caller, t: Tv, s: Sv, p: Pg)
    ensures
        ({
            let f = c.frame;
            let r = syscall::served(c, t, s, p);
            &&& f.rax == 9 ==> r == syscall::plain(
                syscall::grown(c, s, task::mmapped(t, s.free, f.rsi)),
            )
            &&& f.rax == 12 ==> r == syscall::plain(
                syscall::grown(c, s, task::broken(t, s.free, f.rdi)),
            )
            &&& f.rax == 59 ==> r == syscall::plain(
                syscall::exec_call(c, t, s, f.rdi, f.rsi, f.rdx),
            )
            &&& f.rax == 60 ==> r == syscall::plain(
                syscall::exit_call(c, t, s, f.rdi as i32),
            )
            &&& f.rax == 231 ==> r == syscall::plain(
                syscall::exit_call(c, t, s, f.rdi as i32),
            )
            &&& f.rax == 61 ==> r == syscall::plain(
                spawn::waited(c, t, s, f.rdi as i64, f.rsi),
            )
            &&& f.rax == 62 ==> r == syscall::plain(syscall::kill_call(c, t, s, f.rsi))
            &&& f.rax == 234 ==> r == syscall::plain(syscall::kill_call(c, t, s, f.rdx))
            &&& f.rax == 158 ==> r == syscall::plain(
                syscall::prctl_call(c, t, s, f.rdi, f.rsi),
            )
            &&& f.rax == 318 ==> r == syscall::plain(
                syscall::random_call(c, t, s, f.rdi, f.rsi),
            )
        }),
{
}

/// `close` (3) frees the descriptor and no other; one that is not open is an
/// error, and changes nothing.
pub proof fn law_close_frees_the_descriptor(c: Caller, t: Tv, s: Sv, p: Pg, fd: i32)
    requires
        c.frame.rax == 3,
        c.frame.rdi as i32 == fd,
    ensures
        task::obj_at(t.fds, fd as int) is Some ==> (syscall::served(c, t, s, p) matches Some(
            (c2, t2, s2, p2, Outcome::Return(r)),
        ) && r == 0 && task::obj_at(t2.fds, fd as int) is None && t2.fds.len() == t.fds.len()
            && forall|k: int|
            0 <= k < t.fds.len() && k != fd ==> #[trigger] t2.fds[k] == t.fds[k]),
        task::obj_at(t.fds, fd as int) is None ==> (syscall::served(c, t, s, p) matches Some(
            (c2, t2, s2, p2, Outcome::Return(r)),
        ) && r == -9 && t2 == t && s2 == s),
{
}

/// A process that is killed by a fatal signal (6, 9 or 15) or that exits ends
/// with the code that its parent is to see; other signals do nothing.
pub proof fn law_ending_gives_the_code(c: Caller, t: Tv, s: Sv, p: Pg)
    ensures
        c.frame.rax == 60 || c.frame.rax == 231 ==> (syscall::served(c, t, s, p) matches Some(
            (c2, t2, s2, p2, o),
        ) && o == Outcome::Exit(c.frame.rdi as i32) && t2.exited && t2.exit_status == Some(
            c.frame.rdi as i32,
        )),
        c.frame.rax == 62 && (c.frame.rsi == 6 || c.frame.rsi == 9 || c.frame.rsi == 15) ==> (
        syscall::served(c, t, s, p) matches Some((c2, t2, s2, p2, o)) && o == Outcome::Exit(
            (128 + c.frame.rsi) as i32,
        ) && t2.exited),
        c.frame.rax == 62 && c.frame.rsi != 6 && c.frame.rsi != 9 && c.frame.rsi != 15 ==> (
        syscall::served(c, t, s, p) matches Some((c2, t2, s2, p2, o)) && o == Outcome::Return(0)
            && t2 == t && s2 == s),
{
}

/// A call that is not known is answered with `ENOSYS` and changes nothing.
pub proof fn law_unknown_calls_are_refused(c: Caller, t: Tv, s: Sv, p: Pg)
    requires
        400 <= c.frame.rax < 0x1000,
    ensures
        syscall::served(c, t, s, p) matches Some((c2, t2, s2, p2, o)) && o == Outcome::Return(
            -38i64,
        ) && c2 == c && t2 == t && s2 == s,
{
}

/// Two frames agree in every register but `rax`.
pub open spec fn same_but_rax(a: UserFrame, b: UserFrame) -> bool {
    &&& a.rip == b.rip && a.rsp == b.rsp && a.rflags == b.rflags
    &&& a.rbx == b.rbx && a.rbp == b.rbp && a.rdx == b.rdx && a.rsi == b.rsi && a.rdi == b.rdi
    &&& a.r8 == b.r8 && a.r9 == b.r9 && a.r10 == b.r10 && a.r11 == b.r11
    &&& a.r12 == b.r12 && a.r13 == b.r13 && a.r14 == b.r14 && a.r15 == b.r15
}

/// The result of a call goes into `rax`, and no other register changes.
pub proof fn law_result_goes_into_rax(c: Caller, v: i64)
    ensures
        syscall::settled(c, Outcome::Return(v)).frame.rax == v as u64,
        same_but_rax(syscall::settled(c, Outcome::Return(v)).frame, c.frame),
{
}

/// `fork` returns twice: the parent goes on with the child's process id, and the
/// child with 0 at the same place.
pub proof fn law_fork_returns_twice(t: Tv, s: Sv, c: Caller, s2: Sv, o: Outcome)
    requires
        spawn::forked(t, s, c, s2, o),
        o is Fork,
    ensures
        o matches Outcome::Fork { pid, frame } && pid == s.next_pid && frame.rax == 0
            && same_but_rax(frame, c.frame) && syscall::settled(c, o).frame.rax == pid
            && same_but_rax(syscall::settled(c, o).frame, c.frame),
{
}

} // verus!
