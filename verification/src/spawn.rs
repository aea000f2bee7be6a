//! The process tree: starting programs, `fork`, `execve` and `wait4`.
use vstd::prelude::*;

use crate::elf;
use crate::elf::Image;
use crate::file::Ft;
use crate::mm;
use crate::mm::FrameAllocator;
use crate::pe_loader;
use crate::pe_loader::CrtTable;
use crate::process;
use crate::process::{Process, Space};
use crate::sys;
use crate::sys::{Caller, Outcome, Step, Sv, Sys, UserFrame};
use crate::task;
use crate::task::{Fd, Task, Tv};

verus! {

pub const NO_ROOT: &'static str = "no frame for process PML4";

pub const NO_STACK: &'static str = "no frame for user stack";

pub const NO_ROOM: &'static str = "write_user: unmapped page";

pub const NO_FORK: &'static str = "fork: no frame";

/// The frame that an entry of the free list stands for.
pub open spec fn frame_of(f: u64) -> u64 {
    mm::down(f as int, 4096) as u64
}

/// The frame that the next page-table root takes.
pub open spec fn fresh_root(free: Seq<u64>) -> u64 {
    frame_of(free.last())
}

/// An address space with nothing in it, under this page-table root.
pub open spec fn empty_space(root: u64) -> Space {
    Space {
        root,
        mem: Map::empty(),
        pages: Map::empty(),
        next_va: process::USER_ALLOC_BASE,
        brk: process::BRK_BASE,
    }
}

/// A fresh address space, its root on the next free frame, holds the program of
/// `image` and an entry stack with these strings: the space, the frames left, the entry point and the stack
/// pointer.
pub open spec fn image_built(
    free: Seq<u64>,
    image: Seq<u8>,
    argv: Seq<Seq<u8>>,
    envp: Seq<Seq<u8>>,
) -> Result<(Space, Seq<u64>, u64, u64), &'static str> {
    let n = crate::bytes::le16(image, 56) as nat;
    if free.len() == 0 {
        Err(NO_ROOT)
    } else {
        match elf::header_error(image) {
            Some(e) => Err(e),
            None => match elf::load_all(
                image,
                empty_space(fresh_root(free)),
                free.drop_last(),
                n,
            ) {
                Err(e) => Err(e),
                Ok((s, f)) => {
                    let img = Image {
                        entry: crate::bytes::le64(image, 24),
                        phdr: elf::phdr_va(image, n),
                        phent: crate::bytes::le16(image, 54) as u64,
                        phnum: n as u64,
                    };
                    let base = s.next_va as int;
                    if f.len() < 16 || base + 17 * 4096 > u64::MAX {
                        Err(NO_STACK)
                    } else {
                        let s2 = Space {
                            next_va: (base + 17 * 4096) as u64,
                            ..process::with_zero_pages(s, f, base, 16)
                        };
                        let top = base + process::USER_STACK_SIZE;
                        let rsp = process::entry_rsp(top, argv, envp);
                        if process::mapped(s2.mem, rsp, top - rsp) {
                            Ok(
                                (
                                    Space {
                                        mem: process::entry_stack(s2.mem, top, argv, envp, img),
                                        ..s2
                                    },
                                    f.take(f.len() - 16),
                                    img.entry,
                                    rsp as u64,
                                ),
                            )
                        } else {
                            Err(NO_ROOM)
                        }
                    }
                },
            },
        }
    }
}

/// Build a program's address space and entry stack.
pub fn build_image(fa: &mut FrameAllocator, image: &[u8], argv: &[&str], envp: &[&str]) -> (r: Result<
    (Process, u64, u64),
    &'static str,
>)
    ensures
        match image_built(
            old(fa)@,
            image@,
            process::utf8_of(argv@),
            process::utf8_of(envp@),
        ) {
            Ok((s, f, entry, rsp)) => {
                &&& r matches Ok((p, e, sp))
                &&& p.wf()
                &&& p@ == s
                &&& p@.root == fresh_root(old(fa)@)
                &&& e == entry
                &&& sp == rsp
                &&& final(fa)@ == f
            },
            Err(e) => r == Err::<(Process, u64, u64), &'static str>(e),
        },
{
    proof {
        lemma_image_root(fa@, image@, process::utf8_of(argv@), process::utf8_of(envp@));
    }
    let root: u64 = match fa.alloc_frame() {
        Some(f) => f,
        None => { return Err(NO_ROOT); },
    };
    let mut p = Process::new(root);
    let img = match crate::elf::load(&mut p, fa, image) {
        Ok(i) => i,
        Err(e) => { return Err(e); },
    };
    let top: u64 = match p.new_user_stack(fa) {
        Some(t) => t,
        None => { return Err(NO_STACK); },
    };
    match p.init_stack(top, argv, envp, &img) {
        Some(rsp) => Ok((p, img.entry, rsp)),
        None => Err(NO_ROOM),
    }
}

/// A program that was started: its process, where it begins, its stack and its
/// `gs` base.
#[derive(Clone, Copy)]
pub struct Spawned {
    pub pid: u64,
    pub entry: u64,
    pub rsp: u64,
    pub teb: u64,
}

/// A task without a parent in this address space, as the next process.
pub open spec fn entered(s: Sv, space: Space, free: Seq<u64>) -> Sv {
    Sv {
        free,
        files: task::files_seeded(s.files),
        tasks: placed(s.tasks, task::task_new(s.files, s.next_pid, 0, s.session_uid, space)),
        next_pid: s.next_pid.wrapping_add(1),
        ..s
    }
}

fn enter(s: &mut Sys, space: Process) -> (pid: u64)
    requires
        old(s).wf(),
        space.wf(),
    ensures
        final(s).wf(),
        pid == old(s)@.next_pid,
        final(s)@ == entered(old(s)@, space@, old(s)@.free),
        task_of(final(s)@.tasks, pid).space == space@,
{
    let pid: u64 = s.next_pid;
    let t = Task::new(&mut s.files, pid, 0, s.session_uid, space);
    s.next_pid = pid.wrapping_add(1);
    proof {
        lemma_placed(s@.tasks, t@);
    }
    park(s, t);
    pid
}

/// Start the initial program. Where that fails nothing has changed but the
/// free frames.
pub fn spawn_init(s: &mut Sys, bytes: &[u8], argv: &[&str], envp: &[&str]) -> (r: Result<
    Spawned,
    &'static str,
>)
    requires
        old(s).wf(),
    ensures
        final(s).wf(),
        match image_built(
            old(s)@.free,
            bytes@,
            process::utf8_of(argv@),
            process::utf8_of(envp@),
        ) {
            Ok((space, free, entry, rsp)) => {
                &&& r == Ok::<Spawned, &'static str>(
                    Spawned { pid: old(s)@.next_pid, entry, rsp, teb: 0 },
                )
                &&& final(s)@ == entered(old(s)@, space, free)
                &&& task_of(final(s)@.tasks, old(s)@.next_pid).space.root == fresh_root(
                    old(s)@.free,
                )
            },
            Err(e) => {
                &&& r == Err::<Spawned, &'static str>(e)
                &&& final(s)@ == (Sv { free: final(s)@.free, ..old(s)@ })
            },
        },
{
    match build_image(&mut s.fa, bytes, argv, envp) {
        Err(e) => Err(e),
        Ok((space, entry, rsp)) => {
            let pid: u64 = enter(s, space);
            Ok(Spawned { pid, entry, rsp, teb: 0 })
        },
    }
}

/// A Win64 program in a fresh address space, its root on the next free frame:
/// the space, the frames left, and where it starts. At the entry point `rsp + 8` is a multiple of 16.
pub open spec fn pe_built(
    disk: Seq<u8>,
    free: Seq<u64>,
    file: Seq<u8>,
    exports: Seq<&str>,
    flag: u16,
    data: Seq<u16>,
    term: u16,
) -> Result<(Space, Seq<u64>, u64, u64, u64), &'static str> {
    let base = process::USER_ALLOC_BASE as int;
    if free.len() == 0 {
        Err(NO_ROOT)
    } else if free.len() < 17 {
        Err(NO_STACK)
    } else {
        let f = free.drop_last();
        let s = Space {
            next_va: (base + 17 * 4096) as u64,
            ..process::with_zero_pages(empty_space(fresh_root(free)), f, base, 16)
        };
        let top = (base + process::USER_STACK_SIZE) as u64;
        match pe_loader::program_loaded(
            disk,
            file,
            s,
            f.take(f.len() - 16),
            top,
            exports,
            flag,
            data,
            term,
        ) {
            Err(e) => Err(e),
            Ok((img, s2, f2)) => Ok(
                (s2, f2, img.entry, (mm::down(top as int, 16) - 8) as u64, img.teb),
            ),
        }
    }
}

/// Start a Win64 program. Where that fails nothing has changed but the free
/// frames.
pub fn spawn_pe(s: &mut Sys, bytes: &[u8], crt: &CrtTable, term: u16) -> (r: Result<
    Spawned,
    &'static str,
>)
    requires
        old(s).wf(),
        12 < crt.exports@.len() <= 0xFFFF,
    ensures
        final(s).wf(),
        match pe_built(
            old(s)@.disk,
            old(s)@.free,
            bytes@,
            crt.exports@,
            crt.flag,
            crt.data@,
            term,
        ) {
            Ok((space, free, entry, rsp, teb)) => {
                &&& r == Ok::<Spawned, &'static str>(
                    Spawned { pid: old(s)@.next_pid, entry, rsp, teb },
                )
                &&& final(s)@ == entered(old(s)@, space, free)
                &&& task_of(final(s)@.tasks, old(s)@.next_pid).space.root == fresh_root(
                    old(s)@.free,
                )
            },
            Err(e) => {
                &&& r == Err::<Spawned, &'static str>(e)
                &&& final(s)@ == (Sv { free: final(s)@.free, ..old(s)@ })
            },
        },
{
    let root: u64 = match s.fa.alloc_frame() {
        Some(f) => f,
        None => { return Err(NO_ROOT); },
    };
    let mut p = Process::new(root);
    let top: u64 = match p.new_user_stack(&mut s.fa) {
        Some(t) => t,
        None => { return Err(NO_STACK); },
    };
    let img = match crate::pe_loader::load(
        &mut p,
        &mut s.fa,
        s.disk.as_slice(),
        bytes,
        top,
        crt,
        term,
    ) {
        Ok(i) => i,
        Err(e) => { return Err(e); },
    };
    let rsp: u64 = crate::mm::align_down(top, 16) - 8;
    proof {
        lemma_pe_root(old(s)@.disk, old(s)@.free, bytes@, crt.exports@, crt.flag, crt.data@, term);
    }
    let pid: u64 = enter(s, p);
    Ok(Spawned { pid, entry: img.entry, rsp, teb: img.teb })
}

/// The file table after the descriptors `[i, ..)` were copied.
pub open spec fn all_held(files: Ft, fds: Seq<Option<Fd>>, i: int) -> Ft
    decreases fds.len() - i,
{
    if i >= fds.len() {
        files
    } else {
        all_held(sys::held(files, fds[i]), fds, i + 1)
    }
}

fn hold_all(t: &Task, s: &mut Sys)
    requires
        t.wf(),
        old(s).wf(),
    ensures
        final(s).wf(),
        final(s)@ == (Sv { files: all_held(old(s)@.files, t@.fds, 0), ..old(s)@ }),
{
    let n: usize = t.fd_count();
    let mut i: usize = 0;
    while i < n
        invariant
            i <= n,
            n == t@.fds.len(),
            n <= task::FD_LIMIT,
            t.wf(),
            s.wf(),
            s@ == (Sv { files: s@.files, ..old(s)@ }),
            all_held(old(s)@.files, t@.fds, 0) == all_held(s@.files, t@.fds, i as int),
        decreases n - i,
    {
        match t.fd_get(i as i32) {
            Some(id) => {
                if id < s.files.len() {
                    s.files.retain(id);
                }
            },
            None => {},
        }
        i = i + 1;
    }
}

/// The registers a forked child goes on with: the caller's, with 0 as the
/// result.
pub open spec fn child_frame(c: Caller) -> UserFrame {
    UserFrame { rax: 0, cs: c.cs, ss: c.ss, ..c.frame }
}

/// What `fork` leaves behind. The caller's task is untouched; the child has a
/// page-table root of its own, a copy of the memory on other frames, and shares
/// the open files.
pub open spec fn forked(t: Tv, s: Sv, c: Caller, s2: Sv, o: Outcome) -> bool {
    let need = process::user_page_set(t.space).len();
    if s.free.len() == 0 {
        o == Outcome::Panic(NO_ROOT)
    } else if s.free.len() - 1 < need {
        o == Outcome::Panic(NO_FORK)
    } else {
        &&& o == (Outcome::Fork { pid: s.next_pid, frame: child_frame(c) })
        &&& {
            let space = task_of(s2.tasks, s.next_pid).space;
            &&& space.root == fresh_root(s.free)
            &&& process::copied(t.space, s.free.drop_last(), space, s2.free)
            &&& s2 == (Sv {
                free: s2.free,
                files: all_held(s.files, t.fds, 0),
                tasks: placed(s.tasks, task::child_of(t, s.next_pid, s.session_uid, space)),
                next_pid: s.next_pid.wrapping_add(1),
                ..s
            })
        }
    }
}

/// Duplicate the calling task.
pub fn fork(c: &Caller, t: &Task, s: &mut Sys) -> (r: Outcome)
    requires
        t.wf(),
        old(s).wf(),
    ensures
        final(s).wf(),
        forked(t@, old(s)@, *c, final(s)@, r),
{
    let root: u64 = match s.fa.alloc_frame() {
        Some(f) => f,
        None => { return Outcome::Panic(NO_ROOT); },
    };
    let space = match t.copy_space(&mut s.fa, root) {
        Some(p) => p,
        None => { return Outcome::Panic(NO_FORK); },
    };
    let pid: u64 = s.next_pid;
    let child = t.child(pid, s.session_uid, space);
    hold_all(t, s);
    s.next_pid = pid.wrapping_add(1);
    proof {
        lemma_placed(s@.tasks, child@);
    }
    park(s, child);
    let frame = UserFrame { rax: 0, cs: c.cs, ss: c.ss, ..c.frame };
    Outcome::Fork { pid, frame }
}

/// The file table after the close-on-exec descriptors in `[i, ..)` were
/// dropped.
pub open spec fn exec_let_go(files: Ft, fds: Seq<Option<Fd>>, i: int) -> Ft
    decreases fds.len() - i,
{
    if i >= fds.len() {
        files
    } else {
        exec_let_go(
            if fds[i] matches Some(e) && e.cloexec {
                sys::let_go(files, fds[i])
            } else {
                files
            },
            fds,
            i + 1,
        )
    }
}

fn release_on_exec(t: &Task, s: &mut Sys)
    requires
        t.wf(),
        old(s).wf(),
    ensures
        final(s).wf(),
        final(s)@ == (Sv { files: exec_let_go(old(s)@.files, t@.fds, 0), ..old(s)@ }),
{
    let n: usize = t.fd_count();
    let mut i: usize = 0;
    while i < n
        invariant
            i <= n,
            n == t@.fds.len(),
            n <= task::FD_LIMIT,
            t.wf(),
            s.wf(),
            s@ == (Sv { files: s@.files, ..old(s)@ }),
            exec_let_go(old(s)@.files, t@.fds, 0) == exec_let_go(s@.files, t@.fds, i as int),
        decreases n - i,
    {
        if t.closes_on_exec(i as i32) {
            match t.fd_get(i as i32) {
                Some(id) => {
                    if id < s.files.len() {
                        s.files.release(id);
                    }
                },
                None => {},
            }
        }
        i = i + 1;
    }
}

/// The registers a fresh image starts with.
pub open spec fn entry_frame(entry: u64, rsp: u64, cs: u64, ss: u64) -> UserFrame {
    UserFrame {
        r15: 0,
        r14: 0,
        r13: 0,
        r12: 0,
        rbp: 0,
        rbx: 0,
        r11: 0,
        r10: 0,
        r9: 0,
        r8: 0,
        rax: 0,
        rdx: 0,
        rsi: 0,
        rdi: 0,
        rip: entry,
        rflags: 0x202,
        rsp,
        cs,
        ss,
    }
}

/// What `execve` comes to: the image replaced, the close-on-exec descriptors
/// gone, and the thread pointer cleared.
pub open spec fn execed(
    c: Caller,
    t: Tv,
    s: Sv,
    image: Seq<u8>,
    argv: Seq<Seq<u8>>,
    envp: Seq<Seq<u8>>,
) -> (Caller, Tv, Sv, Outcome) {
    match image_built(s.free, image, argv, envp) {
        Err(e) => (c, t, s, Outcome::Panic(e)),
        Ok((space, free, entry, rsp)) => (
            Caller { fsbase: 0, ..c },
            Tv { space, fds: task::kept_on_exec(t.fds), ..t },
            Sv { free, files: exec_let_go(s.files, t.fds, 0), ..s },
            Outcome::Exec(entry_frame(entry, rsp, c.cs, c.ss)),
        ),
    }
}

/// Replace the calling task's image.
pub fn execve(
    c: &mut Caller,
    t: &mut Task,
    s: &mut Sys,
    bytes: &[u8],
    argv: &[&str],
    envp: &[&str],
) -> (r: Outcome)
    requires
        old(t).wf(),
        old(s).wf(),
    ensures
        final(t).wf(),
        final(s).wf(),
        ({
            let (c2, t2, s2, o) = execed(
                *old(c),
                old(t)@,
                old(s)@,
                bytes@,
                process::utf8_of(argv@),
                process::utf8_of(envp@),
            );
            &&& r == o
            &&& o !is Panic ==> *final(c) == c2 && final(t)@ == t2 && final(s)@ == s2
        }),
        r is Exec ==> final(t)@.space.root == fresh_root(old(s)@.free),
        r !is Exec ==> final(t)@ == old(t)@,
{
    match build_image(&mut s.fa, bytes, argv, envp) {
        Err(e) => Outcome::Panic(e),
        Ok((space, entry, rsp)) => {
            release_on_exec(t, s);
            t.close_on_exec();
            let _old = t.set_space(space);
            c.fsbase = 0;
            let frame = UserFrame {
                r15: 0,
                r14: 0,
                r13: 0,
                r12: 0,
                rbp: 0,
                rbx: 0,
                r11: 0,
                r10: 0,
                r9: 0,
                r8: 0,
                rax: 0,
                rdx: 0,
                rsi: 0,
                rdi: 0,
                rip: entry,
                rflags: 0x202,
                rsp,
                cs: c.cs,
                ss: c.ss,
            };
            Outcome::Exec(frame)
        },
    }
}

/// Task `t` is a child of `me` that `pid` asks for; -1 asks for any.
pub open spec fn is_child(t: Tv, me: u64, pid: i64) -> bool {
    t.ppid == me && (pid == -1 || t.pid == pid as u64)
}

/// The first child from `i` on that has ended; the number of tasks where there
/// is none.
pub open spec fn zombie(tasks: Seq<Tv>, me: u64, pid: i64, i: int) -> int
    decreases tasks.len() - i,
{
    if i >= tasks.len() {
        tasks.len() as int
    } else if is_child(tasks[i], me, pid) && tasks[i].exited {
        i
    } else {
        zombie(tasks, me, pid, i + 1)
    }
}

/// There is such a child.
pub open spec fn any_child(tasks: Seq<Tv>, me: u64, pid: i64) -> bool {
    exists|i: int| 0 <= i < tasks.len() && is_child(#[trigger] tasks[i], me, pid)
}

/// There is such a child, and none of them has ended.
pub open spec fn must_wait(tasks: Seq<Tv>, me: u64, pid: i64) -> bool {
    any_child(tasks, me, pid) && forall|i: int|
        0 <= i < tasks.len() && is_child(#[trigger] tasks[i], me, pid) ==> !tasks[i].exited
}

pub proof fn lemma_zombie(tasks: Seq<Tv>, me: u64, pid: i64, i: int)
    requires
        0 <= i <= tasks.len(),
    ensures
        i <= zombie(tasks, me, pid, i) <= tasks.len(),
        ({
            let z = zombie(tasks, me, pid, i);
            if z < tasks.len() {
                is_child(tasks[z], me, pid) && tasks[z].exited
            } else {
                forall|j: int|
                    i <= j < tasks.len() && is_child(#[trigger] tasks[j], me, pid)
                        ==> !tasks[j].exited
            }
        }),
    decreases tasks.len() - i,
{
    if i < tasks.len() && !(is_child(tasks[i], me, pid) && tasks[i].exited) {
        lemma_zombie(tasks, me, pid, i + 1);
    }
}

fn task_is_child(t: &Task, me: u64, pid: i64) -> (r: bool)
    ensures
        r == is_child(t@, me, pid),
{
    t.ppid() == me && (pid == -1 || t.pid() == pid as u64)
}

/// Whether `wait4` has to sleep.
pub fn should_block_in_wait4(tasks: &Vec<Task>, me: u64, pid: i64) -> (r: bool)
    ensures
        r == must_wait(sys::task_views(tasks@), me, pid),
{
    let ghost ts = sys::task_views(tasks@);
    let n: usize = tasks.len();
    let mut any: bool = false;
    let mut i: usize = 0;
    while i < n
        invariant
            i <= n,
            n == tasks@.len(),
            ts == sys::task_views(tasks@),
            any == (exists|j: int| 0 <= j < i && is_child(#[trigger] ts[j], me, pid)),
            forall|j: int| 0 <= j < i && is_child(#[trigger] ts[j], me, pid) ==> !ts[j].exited,
        decreases n - i,
    {
        assert(ts[i as int] == tasks@[i as int]@);
        if task_is_child(&tasks[i], me, pid) {
            any = true;
            if tasks[i].has_exited() {
                return false;
            }
        }
        i = i + 1;
    }
    any
}

/// What `wait4` comes to: the first ended child is forgotten, and its status
/// stored.
pub open spec fn waited(c: Caller, t: Tv, s: Sv, pid: i64, status_ptr: u64) -> Step {
    let z = zombie(s.tasks, t.pid, pid, 0);
    if z < s.tasks.len() {
        let child = s.tasks[z];
        let s2 = Sv { tasks: s.tasks.remove(z), ..s };
        let status = match child.exit_status {
            Some(v) => v,
            None => 0i32,
        };
        if status_ptr == 0 {
            sys::back(c, t, s2, child.pid as i64)
        } else {
            match task::poked(
                t,
                status_ptr as int,
                crate::bytes::bytes32(((status & 0xFF) << 8) as u32),
            ) {
                Some(t2) => sys::back(c, t2, s2, child.pid as i64),
                None => None,
            }
        }
    } else if !any_child(s.tasks, t.pid, pid) {
        sys::back(c, t, s, sys::ECHILD)
    } else {
        Some((c, t, s, Outcome::WaitChild))
    }
}

/// A task taken out leaves the others by rising id.
pub proof fn lemma_removed(tasks: Seq<Tv>, i: int)
    requires
        sys::by_pid(tasks),
        0 <= i < tasks.len(),
    ensures
        sys::by_pid(tasks.remove(i)),
        forall|k: int|
            0 <= k < tasks.len() - 1 ==> (#[trigger] tasks.remove(i)[k]).pid != tasks[i].pid,
        forall|k: int|
            0 <= k < tasks.len() && k != i ==> tasks.remove(i).contains(#[trigger] tasks[k]),
        forall|k: int|
            0 <= k < tasks.len() - 1 ==> tasks.contains(#[trigger] tasks.remove(i)[k]),
{
    let rest = tasks.remove(i);
    let from = |k: int|
        if k < i {
            k
        } else {
            k + 1
        };
    assert forall|k: int| 0 <= k < rest.len() implies #[trigger] rest[k] == tasks[from(k)] by {}
    assert forall|k: int| 0 <= k < rest.len() implies (#[trigger] rest[k]).pid
        != tasks[i].pid && tasks.contains(rest[k]) by {
        assert(rest[k] == tasks[from(k)]);
    }
    assert forall|a: int, b: int|
        #![trigger rest[a], rest[b]]
        0 <= a < b < rest.len() implies rest[a].pid < rest[b].pid by {
        assert(rest[a] == tasks[from(a)] && rest[b] == tasks[from(b)]);
    }
    assert forall|k: int| 0 <= k < tasks.len() && k != i implies rest.contains(
        #[trigger] tasks[k],
    ) by {
        if k < i {
            assert(rest[k] == tasks[k]);
        } else {
            assert(rest[k - 1] == tasks[k]);
        }
    }
}

/// Collect a child that has ended.
pub fn wait4(c: &Caller, t: &mut Task, s: &mut Sys, pid: i64, status_ptr: u64) -> (r: Outcome)
    requires
        old(t).wf(),
        old(s).wf(),
    ensures
        final(t).wf(),
        final(t).pml4() == old(t).pml4(),
        final(s).wf(),
        sys::meets(waited(*c, old(t)@, old(s)@, pid, status_ptr), *c, final(t)@, final(s)@, r),
        r == Outcome::WaitChild <==> must_wait(old(s)@.tasks, old(t)@.pid, pid),
{
    let me: u64 = t.pid();
    let n: usize = s.tasks.len();
    let ghost ts = s@.tasks;
    proof {
        lemma_zombie(ts, me, pid, 0);
    }
    let mut any: bool = false;
    let mut i: usize = 0;
    while i < n
        invariant
            i <= n,
            n == s.tasks@.len(),
            *s == *old(s),
            *t == *old(t),
            old(t).wf(),
            old(s).wf(),
            me == t@.pid,
            ts == sys::task_views(s.tasks@),
            ts == old(s)@.tasks,
            0 <= zombie(ts, me, pid, 0) <= ts.len(),
            any == (exists|j: int| 0 <= j < i && is_child(#[trigger] ts[j], me, pid)),
            zombie(ts, me, pid, 0) == zombie(ts, me, pid, i as int),
            ({
                let z = zombie(ts, me, pid, 0);
                if z < ts.len() {
                    is_child(ts[z], me, pid) && ts[z].exited
                } else {
                    forall|j: int|
                        0 <= j < ts.len() && is_child(#[trigger] ts[j], me, pid) ==> !ts[j].exited
                }
            }),
        decreases n - i,
    {
        assert(ts[i as int] == s.tasks@[i as int]@);
        if task_is_child(&s.tasks[i], me, pid) {
            any = true;
            if s.tasks[i].has_exited() {
                let cpid: u64 = s.tasks[i].pid();
                let status: i32 = match s.tasks[i].exit_status() {
                    Some(v) => v,
                    None => 0,
                };
                let ghost before = s.tasks@;
                let _gone = s.tasks.remove(i);
                proof {
                    assert(sys::task_views(s.tasks@) =~= ts.remove(i as int));
                    lemma_removed(ts, i as int);
                    assert forall|k: int| 0 <= k < s.tasks@.len() implies (
                    #[trigger] s.tasks@[k]).wf() by {
                        if k < i {
                            assert(s.tasks@[k] == before[k]);
                        } else {
                            assert(s.tasks@[k] == before[k + 1]);
                        }
                    }
                }
                if status_ptr != 0 {
                    if !t.store32(status_ptr, 0, ((status & 0xFF) << 8) as u32) {
                        return Outcome::Fault;
                    }
                }
                return Outcome::Return(cpid as i64);
            }
        }
        i = i + 1;
    }
    if any {
        Outcome::WaitChild
    } else {
        Outcome::Return(sys::ECHILD)
    }
}

/// Process `pid` has ended, whether it is the running one or another; one that
/// is not there any more has.
pub open spec fn has_ended(cur: Option<Tv>, tasks: Seq<Tv>, pid: u64) -> bool {
    &&& cur matches Some(t) ==> t.pid == pid ==> t.exited
    &&& forall|i: int| 0 <= i < tasks.len() && (#[trigger] tasks[i]).pid == pid ==> tasks[i].exited
}

/// Whether process `pid` has ended.
pub fn pid_exited(cur: &Option<Task>, s: &Sys, pid: u64) -> (r: bool)
    ensures
        r == has_ended(task_view(*cur), s@.tasks, pid),
{
    match cur {
        Some(t) => {
            if t.pid() == pid && !t.has_exited() {
                return false;
            }
        },
        None => {},
    }
    let n: usize = s.tasks.len();
    let mut i: usize = 0;
    while i < n
        invariant
            i <= n,
            n == s.tasks@.len(),
            task_view(*cur) matches Some(t) ==> t.pid == pid ==> t.exited,
            forall|j: int|
                0 <= j < i && (#[trigger] s@.tasks[j]).pid == pid ==> s@.tasks[j].exited,
        decreases n - i,
    {
        assert(s@.tasks[i as int] == s.tasks@[i as int]@);
        if s.tasks[i].pid() == pid && !s.tasks[i].has_exited() {
            return false;
        }
        i = i + 1;
    }
    true
}

/// The first task from `i` on whose process id is `pid` or above it.
pub open spec fn place_of(tasks: Seq<Tv>, pid: u64, i: int) -> int
    decreases tasks.len() - i,
{
    if i >= tasks.len() {
        tasks.len() as int
    } else if tasks[i].pid >= pid {
        i
    } else {
        place_of(tasks, pid, i + 1)
    }
}

/// The task with this process id.
pub open spec fn task_of(tasks: Seq<Tv>, pid: u64) -> Tv {
    tasks[place_of(tasks, pid, 0)]
}

/// The task among the others, by process id; it takes the place of one that has
/// its id.
pub open spec fn placed(tasks: Seq<Tv>, t: Tv) -> Seq<Tv> {
    let i = place_of(tasks, t.pid, 0);
    if i < tasks.len() && tasks[i].pid == t.pid {
        tasks.update(i, t)
    } else {
        tasks.insert(i, t)
    }
}

pub open spec fn parked(s: Sv, t: Tv) -> Sv {
    Sv { tasks: placed(s.tasks, t), ..s }
}

pub proof fn lemma_place(tasks: Seq<Tv>, pid: u64, i: int)
    requires
        0 <= i <= tasks.len(),
        sys::by_pid(tasks),
        forall|k: int| 0 <= k < i ==> (#[trigger] tasks[k]).pid < pid,
    ensures
        ({
            let p = place_of(tasks, pid, i);
            &&& i <= p <= tasks.len()
            &&& forall|k: int| 0 <= k < p ==> (#[trigger] tasks[k]).pid < pid
            &&& forall|k: int| p < k < tasks.len() ==> (#[trigger] tasks[k]).pid > pid
            &&& p < tasks.len() ==> tasks[p].pid >= pid
        }),
    decreases tasks.len() - i,
{
    if i < tasks.len() {
        if tasks[i].pid < pid {
            lemma_place(tasks, pid, i + 1);
        } else {
            assert forall|k: int| i < k < tasks.len() implies (#[trigger] tasks[k]).pid > pid by {
                assert(tasks[i].pid < tasks[k].pid);
            }
        }
    }
}

proof fn lemma_found(tasks: Seq<Tv>, k: int)
    requires
        sys::by_pid(tasks),
        0 <= k < tasks.len(),
    ensures
        place_of(tasks, tasks[k].pid, 0) == k,
{
    lemma_place(tasks, tasks[k].pid, 0);
    let p = place_of(tasks, tasks[k].pid, 0);
    if p < k {
        assert(tasks[p].pid < tasks[k].pid);
    }
}

/// A task put in its place is there, the tasks still stand by rising id, and
/// every task with another id stays.
pub proof fn lemma_placed(tasks: Seq<Tv>, t: Tv)
    requires
        sys::by_pid(tasks),
    ensures
        sys::by_pid(placed(tasks, t)),
        task_of(placed(tasks, t), t.pid) == t,
        placed(tasks, t).contains(t),
        forall|i: int|
            0 <= i < tasks.len() && (#[trigger] tasks[i]).pid != t.pid ==> placed(
                tasks,
                t,
            ).contains(tasks[i]),
        forall|i: int|
            0 <= i < placed(tasks, t).len() && (#[trigger] placed(tasks, t)[i]).pid != t.pid
                ==> tasks.contains(placed(tasks, t)[i]),
        forall|i: int|
            0 <= i < placed(tasks, t).len() && (#[trigger] placed(tasks, t)[i]).pid == t.pid
                ==> placed(tasks, t)[i] == t,
        (forall|i: int| 0 <= i < tasks.len() ==> (#[trigger] tasks[i]).pid < t.pid) ==> placed(
            tasks,
            t,
        ) == tasks.push(t),
{
    lemma_place(tasks, t.pid, 0);
    let p = place_of(tasks, t.pid, 0);
    let all = placed(tasks, t);
    let same = p < tasks.len() && tasks[p].pid == t.pid;
    let from = |k: int|
        if same || k < p {
            k
        } else {
            k - 1
        };
    assert(all[p] == t);
    assert forall|k: int| 0 <= k < all.len() && k != p implies #[trigger] all[k]
        == tasks[from(k)] by {}
    assert forall|i: int, j: int|
        #![trigger all[i], all[j]]
        0 <= i < j < all.len() implies all[i].pid < all[j].pid by {
        if i != p {
            assert(all[i] == tasks[from(i)]);
        }
        if j != p {
            assert(all[j] == tasks[from(j)]);
        }
    }
    lemma_found(all, p);
    assert forall|i: int| 0 <= i < tasks.len() && (#[trigger] tasks[i]).pid
        != t.pid implies all.contains(tasks[i]) by {
        if same || i < p {
            assert(all[i] == tasks[i]);
        } else {
            assert(all[i + 1] == tasks[i]);
        }
    }
    assert forall|i: int| 0 <= i < all.len() && (#[trigger] all[i]).pid
        != t.pid implies tasks.contains(all[i]) by {
        assert(all[i] == tasks[from(i)]);
    }
    assert forall|i: int| 0 <= i < all.len() && (#[trigger] all[i]).pid == t.pid implies all[i]
        == t by {
        if i < p {
            assert(all[i].pid < all[p].pid);
        } else if i > p {
            assert(all[p].pid < all[i].pid);
        }
    }
    if forall|i: int| 0 <= i < tasks.len() ==> (#[trigger] tasks[i]).pid < t.pid {
        assert(p == tasks.len()) by {
            if p < tasks.len() {
                assert(tasks[p].pid < t.pid);
            }
        }
        assert(all =~= tasks.push(t));
    }
}

/// Put a task that is not running among the others, by process id.
pub fn park(s: &mut Sys, t: Task)
    requires
        old(s).wf(),
        t.wf(),
    ensures
        final(s).wf(),
        final(s)@ == parked(old(s)@, t@),
{
    let pid: u64 = t.pid();
    let n: usize = s.tasks.len();
    let ghost ts = s@.tasks;
    let mut i: usize = 0;
    while i < n && s.tasks[i].pid() < pid
        invariant
            i <= n,
            n == s.tasks@.len(),
            *s == *old(s),
            ts == sys::task_views(s.tasks@),
            pid == t@.pid,
            place_of(ts, pid, 0) == place_of(ts, pid, i as int),
        decreases n - i,
    {
        assert(ts[i as int] == s.tasks@[i as int]@);
        i = i + 1;
    }
    proof {
        if i < n {
            assert(ts[i as int] == s.tasks@[i as int]@);
        }
        assert(place_of(ts, pid, i as int) == i);
        lemma_placed(ts, t@);
    }
    let ghost before = s.tasks@;
    if i < n && s.tasks[i].pid() == pid {
        s.tasks.set(i, t);
        assert(sys::task_views(s.tasks@) =~= ts.update(i as int, t@));
    } else {
        s.tasks.insert(i, t);
        assert(sys::task_views(s.tasks@) =~= ts.insert(i as int, t@));
        assert forall|k: int| 0 <= k < s.tasks@.len() implies (#[trigger] s.tasks@[k]).wf() by {
            if k < i {
                assert(s.tasks@[k] == before[k]);
            } else if k > i {
                assert(s.tasks@[k] == before[k - 1]);
            }
        }
    }
}

/// Record who has logged in; the tasks made from now on belong to them.
pub fn set_session(s: &mut Sys, name: &str, uid: u32)
    ensures
        final(s)@ == (Sv { session_name: name@, session_uid: uid, ..old(s)@ }),
        old(s).wf() ==> final(s).wf(),
{
    s.session_name = crate::text::chars_of(name);
    s.session_uid = uid;
}

/// Remember the event that stands for the end of thread `tid`.
pub fn register_thread_exit(s: &mut Sys, tid: u64, event: usize)
    ensures
        final(s)@ == (Sv { exits: old(s)@.exits.insert(tid, event), ..old(s)@ }),
        old(s).wf() ==> final(s).wf(),
{
    broadcast use vstd::std_specs::btree::group_btree_axioms;

    let _before = s.exits.insert(tid, event);
}

/// Where a worker thread starts, and the event that stands for its end.
#[derive(Clone, Copy)]
pub struct Worker {
    pub entry: u64,
    pub rsp: u64,
    pub teb: u64,
    pub event: usize,
}

/// The running task given a worker thread `tid` that calls `start(arg)`: the
/// task and the state after it, and where the thread starts.
pub open spec fn worker_made(cur: Option<Tv>, s: Sv, start: u64, arg: u64, tid: u64) -> (
    Option<Tv>,
    Sv,
    Result<Worker, &'static str>,
) {
    match cur {
        None => (cur, s, Err("no current task")),
        Some(t) => {
            let (space, free, at) = pe_loader::thread_pages(t.space, s.free, start, arg);
            let t2 = Some(Tv { space, ..t });
            match at {
                Err(e) => (t2, Sv { free, ..s }, Err(e)),
                Ok(rsp) => {
                    let event = s.events.len() as usize;
                    (
                        t2,
                        Sv {
                            free,
                            events: s.events.push(
                                crate::wait::Ev {
                                    signaled: false,
                                    mode: crate::wait::EventMode::Manual,
                                    waiters: Seq::empty(),
                                },
                            ),
                            exits: s.exits.insert(tid, event),
                            ..s
                        },
                        Ok(
                            Worker {
                                entry: crate::pe_pages::PE_THREADSTART_ADDR,
                                rsp,
                                teb: crate::pe_pages::PE_TEB2_ADDR,
                                event,
                            },
                        ),
                    )
                },
            }
        },
    }
}

/// The view of a task that may not be there.
pub open spec fn task_view(t: Option<Task>) -> Option<Tv> {
    match t {
        Some(t) => Some(t@),
        None => None,
    }
}

/// Give the running task a worker thread. There is one at a time: its stack
/// and its environment block have fixed places. `tid` is the id the scheduler
/// gives the thread.
pub fn spawn_thread(cur: &mut Option<Task>, s: &mut Sys, start: u64, arg: u64, tid: u64) -> (r:
    Result<Worker, &'static str>)
    requires
        old(s).wf(),
        *old(cur) matches Some(t) ==> t.wf(),
    ensures
        final(s).wf(),
        *final(cur) matches Some(t) ==> t.wf(),
        (task_view(*final(cur)), final(s)@, r) == worker_made(
            task_view(*old(cur)),
            old(s)@,
            start,
            arg,
            tid,
        ),
{
    match cur {
        None => Err("no current task"),
        Some(t) => match t.map_thread(&mut s.fa, start, arg) {
            Err(e) => Err(e),
            Ok(rsp) => {
                let event: usize = s.events.len();
                let e = crate::wait::Event::new();
                let ghost events0 = s.events@;
                s.events.push(e);
                assert(sys::event_views(s.events@) =~= sys::event_views(events0).push(e@));
                register_thread_exit(s, tid, event);
                Ok(
                    Worker {
                        entry: crate::pe_pages::PE_THREADSTART_ADDR,
                        rsp,
                        teb: crate::pe_pages::PE_TEB2_ADDR,
                        event,
                    },
                )
            },
        },
    }
}

/// The exit event of thread `tid` signalled and forgotten; nothing where it
/// has none.
pub open spec fn exit_signalled(s: Sv, tid: u64) -> (Sv, bool) {
    if s.exits.contains_key(tid) {
        let i = s.exits[tid] as int;
        let s2 = Sv { exits: s.exits.remove(tid), ..s };
        if i < s.events.len() {
            let (e, woken) = crate::wait::signalled(s.events[i]);
            (Sv { events: s.events.update(i, e), woken: s.woken + woken, ..s2 }, true)
        } else {
            (s2, true)
        }
    } else {
        (s, false)
    }
}

/// Signal and forget the exit event of thread `tid`; false where it has none,
/// that is, for a process's first thread.
pub fn signal_thread_exit(s: &mut Sys, tid: u64) -> (r: bool)
    requires
        old(s).wf(),
    ensures
        final(s).wf(),
        (final(s)@, r) == exit_signalled(old(s)@, tid),
{
    broadcast use vstd::std_specs::btree::group_btree_axioms;

    match s.exits.remove(&tid) {
        None => {
            assert(s.exits@ =~= old(s).exits@);
            false
        },
        Some(i) => {
            let ghost events0 = s.events@;
            if i < s.events.len() {
                assert(sys::event_views(events0)[i as int] == events0[i as int]@);
                let woken = s.events[i].signal();
                crate::nt_ntdll::extend_ids(&mut s.woken, &woken);
                assert(sys::event_views(s.events@) =~= sys::event_views(events0).update(
                    i as int,
                    s.events@[i as int]@,
                ));
            }
            true
        },
    }
}

/// A child of `fork` sees the memory its parent had in the user half, in
/// order, and every descriptor names what it named for the parent.
pub proof fn law_fork_copies_memory(t: Tv, s: Sv, c: Caller, s2: Sv, o: Outcome, a: int)
    requires
        sys::by_pid(s.tasks),
        forked(t, s, c, s2, o),
        o is Fork,
        a < process::USER_END,
    ensures
        ({
            let child = task_of(s2.tasks, s.next_pid);
            &&& child.pid == s.next_pid
            &&& child.ppid == t.pid
            &&& child.fds == t.fds
            &&& child.cwd == t.cwd
            &&& child.space.mem.contains_key(a) <==> t.space.mem.contains_key(a)
            &&& t.space.mem.contains_key(a) ==> child.space.mem[a] == t.space.mem[a]
        }),
{
    let space = task_of(s2.tasks, s.next_pid).space;
    lemma_placed(s.tasks, task::child_of(t, s.next_pid, s.session_uid, space));
}

/// The child that `wait4` reports has ended, and is gone afterwards; every
/// other task stays.
pub proof fn law_wait_forgets_one_ended_child(c: Caller, t: Tv, s: Sv, pid: i64)
    requires
        zombie(s.tasks, t.pid, pid, 0) < s.tasks.len(),
    ensures
        ({
            let z = zombie(s.tasks, t.pid, pid, 0);
            &&& 0 <= z
            &&& s.tasks[z].exited
            &&& s.tasks[z].ppid == t.pid
            &&& waited(c, t, s, pid, 0) == sys::back(
                c,
                t,
                Sv { tasks: s.tasks.take(z) + s.tasks.skip(z + 1), ..s },
                s.tasks[z].pid as i64,
            )
        }),
{
    lemma_zombie(s.tasks, t.pid, pid, 0);
    let z = zombie(s.tasks, t.pid, pid, 0);
    assert(s.tasks.remove(z) =~= s.tasks.take(z) + s.tasks.skip(z + 1));
}

/// The address space of a program has its root on the frame that was next, and
/// the frames left are the bottom of the others.
proof fn lemma_image_root(
    free: Seq<u64>,
    image: Seq<u8>,
    argv: Seq<Seq<u8>>,
    envp: Seq<Seq<u8>>,
)
    ensures
        image_built(free, image, argv, envp) matches Ok((space, left, _, _)) ==> {
            &&& space.root == fresh_root(free)
            &&& left.len() < free.len()
            &&& forall|i: int| 0 <= i < left.len() ==> #[trigger] left[i] == free[i]
        },
{
    if image_built(free, image, argv, envp) is Ok {
        let n = crate::bytes::le16(image, 56) as nat;
        let s0 = empty_space(fresh_root(free));
        elf::lemma_load_stems(image, s0, free.drop_last(), n);
        let (s, f) = elf::load_all(image, s0, free.drop_last(), n)->Ok_0;
        process::lemma_zero_pages_root(s, f, s.next_va as int, 16);
    }
}

proof fn lemma_pe_root(
    disk: Seq<u8>,
    free: Seq<u64>,
    file: Seq<u8>,
    exports: Seq<&str>,
    flag: u16,
    data: Seq<u16>,
    term: u16,
)
    ensures
        pe_built(disk, free, file, exports, flag, data, term) matches Ok((space, left, _, _, _))
            ==> {
            &&& space.root == fresh_root(free)
            &&& left.len() < free.len()
            &&& forall|i: int| 0 <= i < left.len() ==> #[trigger] left[i] == free[i]
        },
{
    if pe_built(disk, free, file, exports, flag, data, term) is Ok {
        let base = process::USER_ALLOC_BASE as int;
        let f = free.drop_last();
        let s0 = empty_space(fresh_root(free));
        process::lemma_zero_pages_root(s0, f, base, 16);
        let s = Space {
            next_va: (base + 17 * 4096) as u64,
            ..process::with_zero_pages(s0, f, base, 16)
        };
        pe_loader::law_loading_keeps_the_root(
            disk,
            file,
            s,
            f.take(f.len() - 16),
            (base + process::USER_STACK_SIZE) as u64,
            exports,
            flag,
            data,
            term,
        );
    }
}

/// No two tasks have the same page-table root, no root is on the free list, and
/// no frame is on it twice.
pub open spec fn roots_apart(tasks: Seq<Tv>, free: Seq<u64>) -> bool {
    &&& forall|i: int, j: int|
        #![trigger tasks[i], tasks[j]]
        0 <= i < j < tasks.len() ==> tasks[i].space.root != tasks[j].space.root
    &&& forall|i: int, k: int|
        #![trigger tasks[i], free[k]]
        0 <= i < tasks.len() && 0 <= k < free.len() ==> tasks[i].space.root != frame_of(free[k])
    &&& forall|k: int, l: int|
        #![trigger free[k], free[l]]
        0 <= k < l < free.len() ==> frame_of(free[k]) != frame_of(free[l])
}

/// A task whose root is the next free frame joins the others.
proof fn lemma_root_joins(tasks: Seq<Tv>, free: Seq<u64>, new: Tv, left: Seq<u64>)
    requires
        roots_apart(tasks, free),
        free.len() > 0,
        new.space.root == fresh_root(free),
        left.len() < free.len(),
        forall|i: int| 0 <= i < left.len() ==> #[trigger] left[i] == free[i],
    ensures
        roots_apart(tasks.push(new), left),
        forall|i: int|
            0 <= i < tasks.len() ==> (#[trigger] tasks[i]).space.root != new.space.root,
{
    let last = free.len() - 1;
    assert forall|i: int| 0 <= i < tasks.len() implies (#[trigger] tasks[i]).space.root
        != new.space.root by {
        assert(tasks[i].space.root != frame_of(free[last]));
    }
    let all = tasks.push(new);
    assert forall|i: int, j: int|
        #![trigger all[i], all[j]]
        0 <= i < j < all.len() implies all[i].space.root != all[j].space.root by {
        assert(all[i] == tasks[i]);
        if j < tasks.len() {
            assert(all[j] == tasks[j]);
        }
    }
    assert forall|i: int, k: int|
        #![trigger all[i], left[k]]
        0 <= i < all.len() && 0 <= k < left.len() implies all[i].space.root != frame_of(left[k]) by {
        assert(left[k] == free[k]);
        if i < tasks.len() {
            assert(all[i] == tasks[i]);
        } else {
            assert(frame_of(free[k]) != frame_of(free[last]));
        }
    }
    assert forall|k: int, l: int|
        #![trigger left[k], left[l]]
        0 <= k < l < left.len() implies frame_of(left[k]) != frame_of(left[l]) by {
        assert(left[k] == free[k] && left[l] == free[l]);
    }
}

/// Tasks that are others in another order, each at most once, have their roots
/// apart, too.
proof fn lemma_roots_picked(all: Seq<Tv>, some: Seq<Tv>, from: spec_fn(int) -> int, free: Seq<u64>)
    requires
        roots_apart(all, free),
        forall|k: int|
            0 <= k < some.len() ==> 0 <= #[trigger] from(k) < all.len() && some[k] == all[from(k)],
        forall|j: int, k: int|
            #![trigger from(j), from(k)]
            0 <= j < k < some.len() ==> from(j) != from(k),
    ensures
        roots_apart(some, free),
{
    assert forall|i: int, j: int|
        #![trigger some[i], some[j]]
        0 <= i < j < some.len() implies some[i].space.root != some[j].space.root by {
        let (a, b) = (from(i), from(j));
        assert(some[i] == all[a] && some[j] == all[b]);
        if a < b {
            assert(all[a].space.root != all[b].space.root);
        } else {
            assert(all[b].space.root != all[a].space.root);
        }
    }
    assert forall|i: int, k: int|
        #![trigger some[i], free[k]]
        0 <= i < some.len() && 0 <= k < free.len() implies some[i].space.root != frame_of(free[k]) by {
        let a = from(i);
        assert(some[i] == all[a]);
        assert(all[a].space.root != frame_of(free[k]));
    }
}

/// Where in `tasks.push(t)` the member `k` of `placed(tasks, t)` comes from.
spec fn origin(tasks: Seq<Tv>, t: Tv, k: int) -> int {
    let p = place_of(tasks, t.pid, 0);
    if k == p {
        tasks.len() as int
    } else if k < p || (p < tasks.len() && tasks[p].pid == t.pid) {
        k
    } else {
        k - 1
    }
}

proof fn lemma_origin(tasks: Seq<Tv>, t: Tv)
    requires
        sys::by_pid(tasks),
    ensures
        forall|k: int|
            0 <= k < placed(tasks, t).len() ==> 0 <= #[trigger] origin(tasks, t, k) <= tasks.len()
                && placed(tasks, t)[k] == tasks.push(t)[origin(tasks, t, k)],
        forall|j: int, k: int|
            #![trigger origin(tasks, t, j), origin(tasks, t, k)]
            0 <= j < k < placed(tasks, t).len() ==> origin(tasks, t, j) != origin(tasks, t, k),
{
    lemma_place(tasks, t.pid, 0);
}

proof fn lemma_roots_placed(tasks: Seq<Tv>, t: Tv, free: Seq<u64>)
    requires
        sys::by_pid(tasks),
        roots_apart(tasks.push(t), free),
    ensures
        roots_apart(placed(tasks, t), free),
{
    lemma_origin(tasks, t);
    lemma_roots_picked(tasks.push(t), placed(tasks, t), |k: int| origin(tasks, t, k), free);
}

/// A program that is started has a page-table root that no other task has, and
/// the roots stay apart.
pub proof fn law_started_program_has_its_own_root(
    s: Sv,
    image: Seq<u8>,
    argv: Seq<Seq<u8>>,
    envp: Seq<Seq<u8>>,
)
    requires
        sys::by_pid(s.tasks),
        roots_apart(s.tasks, s.free),
    ensures
        image_built(s.free, image, argv, envp) matches Ok((space, left, _, _)) ==> {
            &&& forall|i: int|
                0 <= i < s.tasks.len() ==> (#[trigger] s.tasks[i]).space.root != space.root
            &&& roots_apart(entered(s, space, left).tasks, entered(s, space, left).free)
        },
{
    match image_built(s.free, image, argv, envp) {
        Ok((space, left, _, _)) => {
            lemma_image_root(s.free, image, argv, envp);
            let new = task::task_new(s.files, s.next_pid, 0, s.session_uid, space);
            lemma_root_joins(s.tasks, s.free, new, left);
            lemma_roots_placed(s.tasks, new, left);
        },
        Err(_) => {},
    }
}

/// So has a Win64 program.
pub proof fn law_started_win64_program_has_its_own_root(
    s: Sv,
    file: Seq<u8>,
    exports: Seq<&str>,
    flag: u16,
    data: Seq<u16>,
    term: u16,
)
    requires
        sys::by_pid(s.tasks),
        roots_apart(s.tasks, s.free),
    ensures
        pe_built(s.disk, s.free, file, exports, flag, data, term) matches Ok((space, left, _, _, _))
            ==> {
            &&& forall|i: int|
                0 <= i < s.tasks.len() ==> (#[trigger] s.tasks[i]).space.root != space.root
            &&& roots_apart(entered(s, space, left).tasks, entered(s, space, left).free)
        },
{
    match pe_built(s.disk, s.free, file, exports, flag, data, term) {
        Ok((space, left, _, _, _)) => {
            lemma_pe_root(s.disk, s.free, file, exports, flag, data, term);
            let new = task::task_new(s.files, s.next_pid, 0, s.session_uid, space);
            lemma_root_joins(s.tasks, s.free, new, left);
            lemma_roots_placed(s.tasks, new, left);
        },
        Err(_) => {},
    }
}

/// A forked child has a page-table root that neither its parent nor any other
/// task has.
pub proof fn law_forked_child_has_its_own_root(t: Tv, s: Sv, c: Caller, s2: Sv, o: Outcome)
    requires
        sys::by_pid(s.tasks),
        roots_apart(s.tasks.push(t), s.free),
        forked(t, s, c, s2, o),
        o is Fork,
    ensures
        task_of(s2.tasks, s.next_pid).space.root != t.space.root,
        forall|i: int|
            0 <= i < s.tasks.len() ==> (#[trigger] s.tasks[i]).space.root != task_of(
                s2.tasks,
                s.next_pid,
            ).space.root,
        roots_apart(s2.tasks.push(t), s2.free),
{
    let space = task_of(s2.tasks, s.next_pid).space;
    let child = task::child_of(t, s.next_pid, s.session_uid, space);
    lemma_placed(s.tasks, child);
    let with_t = s.tasks.push(t);
    let n = s.tasks.len() as int;
    lemma_root_joins(with_t, s.free, child, s2.free);
    assert(with_t[n] == t);
    assert forall|i: int| 0 <= i < n implies (#[trigger] s.tasks[i]).space.root
        != child.space.root by {
        assert(with_t[i] == s.tasks[i]);
    }
    lemma_origin(s.tasks, child);
    let all = with_t.push(child);
    let want = s2.tasks.push(t);
    let m = s2.tasks.len() as int;
    let from = |k: int|
        if k == m {
            n
        } else if origin(s.tasks, child, k) == n {
            n + 1
        } else {
            origin(s.tasks, child, k)
        };
    assert forall|k: int| 0 <= k < want.len() implies 0 <= #[trigger] from(k) < all.len()
        && want[k] == all[from(k)] by {
        if k < m {
            assert(s2.tasks[k] == s.tasks.push(child)[origin(s.tasks, child, k)]);
        }
    }
    assert forall|j: int, k: int|
        #![trigger from(j), from(k)]
        0 <= j < k < want.len() implies from(j) != from(k) by {
        if k < m {
            assert(origin(s.tasks, child, j) != origin(s.tasks, child, k));
        }
    }
    lemma_roots_picked(all, want, from, s2.free);
}

/// A replaced image has a page-table root that neither the old image nor any
/// other task has.
pub proof fn law_replaced_image_has_its_own_root(
    c: Caller,
    t: Tv,
    s: Sv,
    image: Seq<u8>,
    argv: Seq<Seq<u8>>,
    envp: Seq<Seq<u8>>,
)
    requires
        roots_apart(s.tasks.push(t), s.free),
        execed(c, t, s, image, argv, envp).3 is Exec,
    ensures
        ({
            let (_, t2, s2, _) = execed(c, t, s, image, argv, envp);
            &&& t2.space.root != t.space.root
            &&& forall|i: int|
                0 <= i < s2.tasks.len() ==> (#[trigger] s2.tasks[i]).space.root != t2.space.root
            &&& roots_apart(s2.tasks.push(t2), s2.free)
        }),
{
    let (_, t2, s2, _) = execed(c, t, s, image, argv, envp);
    lemma_image_root(s.free, image, argv, envp);
    let with_t = s.tasks.push(t);
    lemma_root_joins(with_t, s.free, t2, s2.free);
    assert(with_t[s.tasks.len() as int] == t);
    assert forall|i: int| 0 <= i < s.tasks.len() implies with_t[i] == #[trigger] s.tasks[i] by {}
    let all = with_t.push(t2);
    let want = s.tasks.push(t2);
    let n = s.tasks.len() as int;
    assert forall|i: int, j: int|
        #![trigger want[i], want[j]]
        0 <= i < j < want.len() implies want[i].space.root != want[j].space.root by {
        assert(all[i] == want[i]);
        if j < n {
            assert(all[j] == want[j]);
        } else {
            assert(all[n + 1] == want[j]);
        }
    }
    assert forall|i: int, k: int|
        #![trigger want[i], s2.free[k]]
        0 <= i < want.len() && 0 <= k < s2.free.len() implies want[i].space.root != frame_of(
        s2.free[k],
    ) by {
        if i < n {
            assert(all[i] == want[i]);
        } else {
            assert(all[n + 1] == want[i]);
        }
    }
}

/// A process has one personality: an image that one loader takes, the other
/// refuses.
pub proof fn law_image_has_one_personality(image: Seq<u8>)
    ensures
        crate::elf::header_error(image) is None ==> crate::pe::header(image) is Err,
        crate::pe::header(image) is Ok ==> crate::elf::header_error(image) == Some("not an ELF"),
{
}

} // verus!
