//! The state the two personalities share, and the calls that both are built
//! from: reading, writing and closing descriptors, and ending a process.
//!
//! A call that needs memory which the caller has not mapped comes to nothing;
//! the caller is then killed by the fault. A call that has to wait says on
//! what, and is made again with the progress it reported.
use std::collections::BTreeMap;

use vstd::prelude::*;

use crate::console::{Con, Console};
use crate::file;
use crate::file::{FileTable, Ft, Got, Gotten, Put};
use crate::mm::FrameAllocator;
use crate::process;
use crate::registry::{Registry, Tree};
use crate::seh::ExcFrame;
use crate::task;
use crate::task::{Fd, Task, Tv};
use crate::wait::{Ev, Event, WaitQueue};

verus! {

pub const MAX_CPUS: u32 = 32;

pub const ENOENT: i64 = -2;

pub const EIO: i64 = -5;

pub const ECHILD: i64 = -10;

pub const ENOTTY: i64 = -25;

pub const ERANGE: i64 = -34;

pub const ENOSYS: i64 = -38;

pub const ENOTEMPTY: i64 = -39;

/// The user registers at a ring transition.
#[derive(Clone, Copy)]
pub struct UserFrame {
    pub r15: u64,
    pub r14: u64,
    pub r13: u64,
    pub r12: u64,
    pub rbp: u64,
    pub rbx: u64,
    pub r11: u64,
    pub r10: u64,
    pub r9: u64,
    pub r8: u64,
    pub rax: u64,
    pub rdx: u64,
    pub rsi: u64,
    pub rdi: u64,
    pub rip: u64,
    pub rflags: u64,
    pub rsp: u64,
    pub cs: u64,
    pub ss: u64,
}

/// The thread that makes a call: its registers, its id, its segment bases, and
/// the user selectors.
#[derive(Clone, Copy)]
pub struct Caller {
    pub frame: UserFrame,
    pub tid: u64,
    pub fsbase: u64,
    pub gsbase: u64,
    pub cs: u64,
    pub ss: u64,
}

/// What comes of a call.
#[derive(Clone, Copy)]
pub enum Outcome {
    /// The value for the return register.
    Return(i64),
    /// The process ended with this status.
    Exit(i32),
    /// Wait until the open file changes, and make the call again with this
    /// much of a write already done.
    Block { file: usize, done: u64 },
    /// The thread is queued on this event.
    WaitEvent(usize),
    /// Try the event this many times, yielding in between.
    PollEvent { event: usize, spins: u64 },
    /// Go on with these registers.
    Resume(ExcFrame),
    /// A child was made; it goes on with these registers.
    Fork { pid: u64, frame: UserFrame },
    /// The image was replaced; go on with these registers.
    Exec(UserFrame),
    /// Yield this many times, and return 0.
    Yield(u64),
    /// Wait until a child ends, and make the call again.
    WaitChild,
    /// Remove a file, or a directory.
    Unlink { dir: bool },
    /// The kernel cannot go on.
    Panic(&'static str),
    /// The caller named memory it does not have.
    Fault,
}

/// The shared state.
pub struct Sys {
    pub fa: FrameAllocator,
    pub disk: Vec<u8>,
    pub files: FileTable,
    pub events: Vec<Event>,
    pub registry: Registry,
    pub con: Console,
    /// What the serial line has been sent.
    pub out: Vec<u8>,
    /// Threads to put on the ready queue.
    pub woken: Vec<u64>,
    /// Threads that wait for a child to end.
    pub child_exit: WaitQueue,
    /// Every task but the caller's, by rising process id.
    pub tasks: Vec<Task>,
    pub next_pid: u64,
    /// Who is logged in.
    pub session_uid: u32,
    pub session_name: Vec<char>,
    /// The event of each worker thread's exit, by thread id.
    pub exits: BTreeMap<u64, usize>,
    pub rng: u64,
    pub user_exits: u64,
    pub cpus: u32,
}

#[verifier::ext_equal]
pub struct Sv {
    pub free: Seq<u64>,
    pub disk: Seq<u8>,
    pub files: Ft,
    pub events: Seq<Ev>,
    pub registry: Tree,
    pub con: Con,
    pub out: Seq<u8>,
    pub woken: Seq<u64>,
    pub child_exit: Seq<u64>,
    pub tasks: Seq<Tv>,
    pub next_pid: u64,
    pub session_uid: u32,
    pub session_name: Seq<char>,
    pub exits: Map<u64, usize>,
    pub rng: u64,
    pub user_exits: u64,
    pub cpus: u32,
}

pub open spec fn event_views(v: Seq<Event>) -> Seq<Ev> {
    v.map_values(|e: Event| e@)
}

pub open spec fn task_views(v: Seq<Task>) -> Seq<Tv> {
    v.map_values(|t: Task| t@)
}

/// The tasks stand by rising process id, so that no two have the same.
pub open spec fn by_pid(tasks: Seq<Tv>) -> bool {
    forall|i: int, j: int|
        #![trigger tasks[i], tasks[j]]
        0 <= i < j < tasks.len() ==> tasks[i].pid < tasks[j].pid
}

impl View for Sys {
    type V = Sv;

    open spec fn view(&self) -> Sv {
        Sv {
            free: self.fa@,
            disk: self.disk@,
            files: self.files@,
            events: event_views(self.events@),
            registry: self.registry@,
            con: self.con@,
            out: self.out@,
            woken: self.woken@,
            child_exit: self.child_exit@,
            tasks: task_views(self.tasks@),
            next_pid: self.next_pid,
            session_uid: self.session_uid,
            session_name: self.session_name@,
            exits: self.exits@,
            rng: self.rng,
            user_exits: self.user_exits,
            cpus: self.cpus,
        }
    }
}

impl Sys {
    pub open spec fn wf(self) -> bool {
        &&& self.files.wf()
        &&& self.registry.wf()
        &&& self.cpus <= MAX_CPUS
        &&& forall|i: int| 0 <= i < self.tasks@.len() ==> (#[trigger] self.tasks@[i]).wf()
        &&& by_pid(task_views(self.tasks@))
    }

    /// A system with this disk and these free frames, and nothing running.
    pub fn new(fa: FrameAllocator, disk: Vec<u8>, cpus: u32) -> (r: Sys)
        requires
            cpus <= MAX_CPUS,
        ensures
            r.wf(),
            r@ == (Sv {
                free: fa@,
                disk: disk@,
                files: file::no_files(),
                events: Seq::empty(),
                registry: crate::registry::hives(),
                con: Con {
                    queue: Seq::empty(),
                    prev: seq![0u8, 0, 0, 0, 0, 0],
                    line_len: 0,
                    echo: 0,
                    waiters: Seq::empty(),
                },
                out: Seq::empty(),
                woken: Seq::empty(),
                child_exit: Seq::empty(),
                tasks: Seq::empty(),
                next_pid: 1,
                session_uid: 0,
                session_name: Seq::empty(),
                exits: Map::empty(),
                rng: 0x1234_5678_9abc_def0,
                user_exits: 0,
                cpus,
            }),
    {
        let r = Sys {
            fa,
            disk,
            files: FileTable::new(),
            events: Vec::new(),
            registry: Registry::new(),
            con: Console::new(),
            out: Vec::new(),
            woken: Vec::new(),
            child_exit: WaitQueue::new(),
            tasks: Vec::new(),
            next_pid: 1,
            session_uid: 0,
            session_name: Vec::new(),
            exits: BTreeMap::new(),
            rng: 0x1234_5678_9abc_def0,
            user_exits: 0,
            cpus,
        };
        assert(event_views(r.events@) =~= Seq::empty());
        assert(task_views(r.tasks@) =~= Seq::empty());
        r
    }
}

/// The open file behind a descriptor.
pub open spec fn file_of(t: Tv, s: Sv, fd: i32) -> Option<int> {
    match task::file_at(t.fds, fd as int) {
        Some(i) => if i < s.files.files.len() {
            Some(i)
        } else {
            None
        },
        None => None,
    }
}

/// The event behind a handle.
pub open spec fn event_of(t: Tv, s: Sv, h: i32) -> Option<int> {
    match task::event_at(t.fds, h as int) {
        Some(i) => if i < s.events.len() {
            Some(i)
        } else {
            None
        },
        None => None,
    }
}

pub fn find_file(t: &Task, s: &Sys, fd: i32) -> (r: Option<usize>)
    requires
        t.wf(),
    ensures
        match file_of(t@, s@, fd) {
            Some(i) => r is Some && r->0 == i && i < s@.files.files.len(),
            None => r is None,
        },
{
    match t.fd_get(fd) {
        Some(i) => if i < s.files.len() {
            Some(i)
        } else {
            None
        },
        None => None,
    }
}

pub fn find_event(t: &Task, s: &Sys, h: i32) -> (r: Option<usize>)
    requires
        t.wf(),
    ensures
        match event_of(t@, s@, h) {
            Some(i) => r is Some && r->0 == i && i < s.events@.len(),
            None => r is None,
        },
{
    match t.handle_event(h) {
        Some(i) => if i < s.events.len() {
            Some(i)
        } else {
            None
        },
        None => None,
    }
}

/// One descriptor less names what slot `e` held.
pub open spec fn let_go(files: Ft, e: Option<Fd>) -> Ft {
    match e {
        Some(Fd { obj: task::Obj::File(i), cloexec: _ }) => if 0 <= i < files.files.len() {
            file::file_released(files, i)
        } else {
            files
        },
        _ => files,
    }
}

/// A descriptor closed: the task, the state, and whether it was open.
pub open spec fn closed(t: Tv, s: Sv, fd: i32) -> (Tv, Sv, bool) {
    if task::obj_at(t.fds, fd as int) is Some {
        (
            Tv { fds: t.fds.update(fd as int, None), ..t },
            Sv { files: let_go(s.files, t.fds[fd as int]), ..s },
            true,
        )
    } else {
        (t, s, false)
    }
}

/// Close a descriptor of either personality.
pub fn close(t: &mut Task, s: &mut Sys, fd: i32) -> (r: bool)
    requires
        old(t).wf(),
        old(s).wf(),
    ensures
        final(t).wf(),
        final(s).wf(),
        final(t).pml4() == old(t).pml4(),
        (final(t)@, final(s)@, r) == closed(old(t)@, old(s)@, fd),
{
    let id = t.fd_get(fd);
    if !t.fd_close(fd) {
        return false;
    }
    match id {
        Some(i) => {
            if i < s.files.len() {
                s.files.release(i);
            }
        },
        None => {},
    }
    true
}

/// One descriptor more names what slot `e` holds.
pub open spec fn held(files: Ft, e: Option<Fd>) -> Ft {
    match e {
        Some(Fd { obj: task::Obj::File(i), cloexec: _ }) => if 0 <= i < files.files.len() {
            file::file_retained(files, i)
        } else {
            files
        },
        _ => files,
    }
}

/// What slot `fd` holds.
pub open spec fn slot(fds: Seq<Option<Fd>>, fd: int) -> Option<Fd> {
    if 0 <= fd < fds.len() {
        fds[fd]
    } else {
        None
    }
}

/// A descriptor duplicated at or above `min`: the task, the state, and the new
/// descriptor or an error.
pub open spec fn duped(t: Tv, s: Sv, old_fd: i32, min: i32) -> (Tv, Sv, int) {
    let (fds, r) = task::fd_duped(t.fds, old_fd as int, min as int);
    (
        Tv { fds, ..t },
        if r >= 0 {
            Sv { files: held(s.files, slot(t.fds, old_fd as int)), ..s }
        } else {
            s
        },
        r,
    )
}

/// Duplicate a descriptor to the lowest free one at or above `min`.
pub fn dup(t: &mut Task, s: &mut Sys, oldfd: i32, min: i32) -> (r: i32)
    requires
        old(t).wf(),
        old(s).wf(),
    ensures
        final(t).wf(),
        final(s).wf(),
        final(t).pml4() == old(t).pml4(),
        (final(t)@, final(s)@, r as int) == duped(old(t)@, old(s)@, oldfd, min),
{
    let id = t.fd_get(oldfd);
    let r: i32 = t.fd_dup(oldfd, min);
    if r >= 0 {
        match id {
            Some(i) => {
                if i < s.files.len() {
                    s.files.retain(i);
                }
            },
            None => {},
        }
    }
    r
}

/// `new_fd` made to name what `old_fd` names; what it named before is let go.
pub open spec fn forced(t: Tv, s: Sv, old_fd: i32, new_fd: i32, cloexec: bool) -> (Tv, Sv, int) {
    let (fds, r) = task::fd_forced(t.fds, old_fd as int, new_fd as int, cloexec);
    let n = if new_fd < 0 {
        0
    } else {
        new_fd as int
    };
    (
        Tv { fds, ..t },
        if task::obj_at(t.fds, old_fd as int) is Some && old_fd != new_fd {
            Sv {
                files: let_go(held(s.files, slot(t.fds, old_fd as int)), slot(t.fds, n)),
                ..s
            }
        } else {
            s
        },
        r,
    )
}

/// Make `newfd` name what `oldfd` names.
pub fn dup3(t: &mut Task, s: &mut Sys, oldfd: i32, newfd: i32, cloexec: bool) -> (r: i32)
    requires
        old(t).wf(),
        old(s).wf(),
    ensures
        final(t).wf(),
        final(s).wf(),
        final(t).pml4() == old(t).pml4(),
        (final(t)@, final(s)@, r as int) == forced(old(t)@, old(s)@, oldfd, newfd, cloexec),
{
    let open: bool = t.fd_is_open(oldfd);
    let id = t.fd_get(oldfd);
    let before = t.fd_get(if newfd < 0 { 0 } else { newfd });
    let r: i32 = t.fd_dup3(oldfd, newfd, cloexec);
    if open && oldfd != newfd {
        match id {
            Some(i) => {
                if i < s.files.len() {
                    s.files.retain(i);
                }
            },
            None => {},
        }
        match before {
            Some(i) => {
                if i < s.files.len() {
                    s.files.release(i);
                }
            },
            None => {},
        }
    }
    r
}

/// The file table after the descriptors `[i, ..)` were dropped.
pub open spec fn all_let_go(files: Ft, fds: Seq<Option<Fd>>, i: int) -> Ft
    decreases fds.len() - i,
{
    if i >= fds.len() {
        files
    } else {
        all_let_go(let_go(files, fds[i]), fds, i + 1)
    }
}

/// Whoever waits for a child to end is woken.
pub open spec fn parents_woken(s: Sv) -> Sv {
    Sv { woken: s.woken + s.child_exit, child_exit: Seq::empty(), ..s }
}

/// Wake whoever waits for a child to end.
pub fn wake_parents(s: &mut Sys)
    requires
        old(s).wf(),
    ensures
        final(s).wf(),
        final(s)@ == parents_woken(old(s)@),
{
    let mut w = s.child_exit.wake_all();
    s.woken.append(&mut w);
}

/// A task with its exit status set keeps no descriptor, and its parent may look
/// again.
pub open spec fn status_set(t: Tv, s: Sv, code: i32) -> (Tv, Sv) {
    (
        Tv { exit_status: Some(code), exited: true, fds: Seq::empty(), ..t },
        parents_woken(Sv { files: all_let_go(s.files, t.fds, 0), ..s }),
    )
}

/// Record the task's status, drop every descriptor, so that the other end of a
/// pipe sees it at once, and wake whoever waits for a child.
pub fn set_status(t: &mut Task, s: &mut Sys, code: i32)
    requires
        old(t).wf(),
        old(s).wf(),
    ensures
        final(t).wf(),
        final(s).wf(),
        final(t).pml4() == old(t).pml4(),
        (final(t)@, final(s)@) == status_set(old(t)@, old(s)@, code),
{
    let n: usize = t.fd_count();
    let mut i: usize = 0;
    let ghost fds = t@.fds;
    let ghost f0 = s@.files;
    while i < n
        invariant
            i <= n,
            n == fds.len(),
            n <= task::FD_LIMIT,
            t@ == old(t)@,
            *t == *old(t),
            t.wf(),
            fds == t@.fds,
            s.wf(),
            s@ == (Sv { files: s@.files, ..old(s)@ }),
            all_let_go(f0, fds, 0) == all_let_go(s@.files, fds, i as int),
        decreases n - i,
    {
        match t.fd_get(i as i32) {
            Some(id) => {
                if id < s.files.len() {
                    s.files.release(id);
                }
            },
            None => {},
        }
        i = i + 1;
    }
    t.set_exit_status(code);
    wake_parents(s);
}

/// A task that ended has its status set, and counts as one more exit.
pub open spec fn ended(t: Tv, s: Sv, code: i32) -> (Tv, Sv) {
    let (t2, s2) = status_set(t, s, code);
    (t2, Sv { user_exits: s2.user_exits.wrapping_add(1), ..s2 })
}

/// End the task.
pub fn end(t: &mut Task, s: &mut Sys, code: i32)
    requires
        old(t).wf(),
        old(s).wf(),
    ensures
        final(t).wf(),
        final(s).wf(),
        final(t).pml4() == old(t).pml4(),
        (final(t)@, final(s)@) == ended(old(t)@, old(s)@, code),
{
    set_status(t, s, code);
    s.user_exits = s.user_exits.wrapping_add(1);
}

/// What a write comes to.
#[derive(Clone, Copy)]
pub enum Wrote {
    NoFile,
    Done(i64),
    Block(usize, u64),
}

/// `write` on a descriptor; nothing where the buffer is not mapped.
pub open spec fn written(t: Tv, s: Sv, fd: i32, buf: u64, len: u64, done: u64) -> Option<(Sv, Wrote)> {
    match file_of(t, s, fd) {
        None => Some((s, Wrote::NoFile)),
        Some(id) => if len > usize::MAX || done > len || !process::mapped(
            t.space.mem,
            buf as int,
            len as int,
        ) {
            None
        } else {
            let data = process::peek(t.space.mem, buf as int, len as nat);
            let (files, out, put) = file::file_write(s.files, s.out, id, data, done as int);
            Some(
                (
                    Sv { files, out, ..s },
                    match put {
                        Put::Done(n) => Wrote::Done(n),
                        Put::Block(d) => Wrote::Block(id as usize, d),
                    },
                ),
            )
        },
    }
}

/// Write from user memory to a descriptor.
pub fn write(t: &Task, s: &mut Sys, fd: i32, buf: u64, len: u64, done: u64) -> (r: Option<Wrote>)
    requires
        t.wf(),
        old(s).wf(),
    ensures
        final(s).wf(),
        match written(t@, old(s)@, fd, buf, len, done) {
            Some((v, w)) => r == Some(w) && final(s)@ == v,
            None => r is None && final(s)@ == old(s)@,
        },
{
    let id: usize = match find_file(t, s, fd) {
        Some(i) => i,
        None => { return Some(Wrote::NoFile); },
    };
    if done > len {
        return None;
    }
    match t.load_bytes(buf, len) {
        None => None,
        Some(b) => match s.files.write(&mut s.out, id, b.as_slice(), done) {
            Put::Done(n) => Some(Wrote::Done(n)),
            Put::Block(d) => Some(Wrote::Block(id, d)),
        },
    }
}

/// What a read comes to.
#[derive(Clone, Copy)]
pub enum Read {
    NoFile,
    Done(i64),
    Block(usize),
}

/// What a read handed out, stored in the caller's buffer.
pub open spec fn delivered(t: Tv, s: Sv, id: int, buf: u64, got: Gotten) -> Option<(Tv, Sv, Read)> {
    match got {
        Gotten::Bytes(b) => match task::poked(t, buf as int, b) {
            Some(t2) => Some((t2, s, Read::Done(b.len() as i64))),
            None => None,
        },
        Gotten::Fail(e) => Some((t, s, Read::Done(e))),
        Gotten::Block => Some((t, s, Read::Block(id as usize))),
        Gotten::Broken => None,
    }
}

/// `read` on a descriptor; nothing where the buffer is not mapped.
pub open spec fn readed(t: Tv, s: Sv, fd: i32, buf: u64, len: u64) -> Option<(Tv, Sv, Read)> {
    match file_of(t, s, fd) {
        None => Some((t, s, Read::NoFile)),
        Some(id) => if len > usize::MAX || !process::mapped(t.space.mem, buf as int, len as int) {
            None
        } else {
            let (files, con, got) = file::file_read(s.files, s.con, id, len as int);
            delivered(t, Sv { files, con, ..s }, id, buf, got)
        },
    }
}

/// Read from a descriptor into user memory.
pub fn read(t: &mut Task, s: &mut Sys, fd: i32, buf: u64, len: u64) -> (r: Option<Read>)
    requires
        old(t).wf(),
        old(s).wf(),
    ensures
        final(t).wf(),
        final(s).wf(),
        final(t).pml4() == old(t).pml4(),
        match readed(old(t)@, old(s)@, fd, buf, len) {
            Some((tv, sv, w)) => r == Some(w) && final(t)@ == tv && final(s)@ == sv,
            None => r is None,
        },
{
    let id: usize = match find_file(t, s, fd) {
        Some(i) => i,
        None => { return Some(Read::NoFile); },
    };
    if len > usize::MAX as u64 || !t.is_mapped(buf, len) {
        return None;
    }
    match s.files.read(&mut s.con, id, len as usize) {
        Got::Bytes(b) => {
            if t.store_bytes(buf, b.as_slice()) {
                Some(Read::Done(b.len() as i64))
            } else {
                None
            }
        },
        Got::Fail(e) => Some(Read::Done(e)),
        Got::Block => Some(Read::Block(id)),
        Got::Broken => None,
    }
}

/// What a call comes to: the caller, its task, the shared state, and the
/// outcome; nothing where it faults.
pub type Step = Option<(Caller, Tv, Sv, Outcome)>;

/// The call left this behind.
pub open spec fn meets(w: Step, c: Caller, t: Tv, s: Sv, o: Outcome) -> bool {
    match w {
        Some((c2, t2, s2, o2)) => c == c2 && t == t2 && s == s2 && o == o2,
        None => o == Outcome::Fault,
    }
}

/// A thread whose call has to wait is queued where it will be woken: at the
/// keyboard, at the pipe, or with those that wait for a child.
pub open spec fn parked(s: Sv, tid: u64, o: Outcome) -> Sv {
    match o {
        Outcome::Block { file, done: _ } => if file >= s.files.files.len() {
            s
        } else if s.files.files[file as int] == file::Fv::Keyboard {
            Sv { con: Con { waiters: s.con.waiters.push(tid), ..s.con }, ..s }
        } else {
            Sv { files: file::file_awaited(s.files, file as int, tid), ..s }
        },
        Outcome::WaitChild => Sv { child_exit: s.child_exit.push(tid), ..s },
        _ => s,
    }
}

/// Queue a thread whose call has to wait.
pub fn park(s: &mut Sys, tid: u64, o: &Outcome)
    requires
        old(s).wf(),
    ensures
        final(s).wf(),
        final(s)@ == parked(old(s)@, tid, *o),
{
    match o {
        Outcome::Block { file, done: _ } => {
            if *file < s.files.len() {
                if s.files.is_keyboard(*file) {
                    s.con.wait_for_key(tid);
                } else {
                    s.files.wait(*file, tid);
                }
            }
        },
        Outcome::WaitChild => {
            s.child_exit.wait(tid);
        },
        _ => {},
    }
}

impl Sys {
    /// Hand out every thread that was woken, by an event or the end of a child
    /// first.
    pub fn take_woken(&mut self) -> (r: Vec<u64>)
        requires
            old(self).wf(),
        ensures
            final(self).wf(),
            r@ == old(self)@.woken + old(self)@.files.woken,
            final(self)@ == (Sv {
                woken: Seq::empty(),
                files: Ft { woken: Seq::empty(), ..old(self)@.files },
                ..old(self)@
            }),
    {
        let mut out: Vec<u64> = Vec::new();
        std::mem::swap(&mut out, &mut self.woken);
        let mut more = self.files.take_woken();
        out.append(&mut more);
        assert(self.woken@ =~= Seq::<u64>::empty());
        out
    }
}

/// A thread that waits for a child is woken when a task ends, and none is left
/// waiting.
pub proof fn law_exit_wakes_parents(t: Tv, s: Sv, code: i32, tid: u64)
    ensures
        ({
            let waiting = parked(s, tid, Outcome::WaitChild);
            let after = ended(t, waiting, code).1;
            after.woken.contains(tid) && after.child_exit.len() == 0
        }),
{
    let waiting = parked(s, tid, Outcome::WaitChild);
    let after = ended(t, waiting, code).1;
    assert(after.woken.last() == tid);
}

/// The call returns `v`.
pub open spec fn back(c: Caller, t: Tv, s: Sv, v: i64) -> Step {
    Some((c, t, s, Outcome::Return(v)))
}

/// A fresh stream of directory records, at the lowest free descriptor.
pub open spec fn listing_opened(t: Tv, s: Sv, entries: Seq<(u64, u8, Seq<u8>)>) -> (Tv, Sv, int) {
    let id = s.files.files.len() as int;
    let (fds, fd) = task::fd_put(t.fds, Fd { obj: task::Obj::File(id), cloexec: false });
    (
        Tv { fds, ..t },
        Sv {
            files: Ft {
                files: s.files.files.push(file::Fv::Dir(file::dirents(Seq::empty(), entries, 0), 0)),
                refs: s.files.refs.push(1),
                ..s.files
            },
            ..s
        },
        fd,
    )
}

/// The directory with inode `ino` opened as a stream of its entries' records.
pub open spec fn dir_listed(c: Caller, t: Tv, s: Sv, ino: u32) -> Step {
    match crate::ext2::opened(s.disk) {
        Err(_) => back(c, t, s, EIO),
        Ok(fs) => match crate::ext2::listed(s.disk, fs, ino) {
            Err(e) => Some((c, t, s, Outcome::Panic(e))),
            Ok(es) => {
                let (t2, s2, fd) = listing_opened(t, s, es);
                back(c, t2, s2, fd as i64)
            },
        },
    }
}

/// Open the listing of directory `ino`.
pub fn list_dir(c: &Caller, t: &mut Task, s: &mut Sys, ino: u32) -> (r: Outcome)
    requires
        old(t).wf(),
        old(s).wf(),
    ensures
        final(t).wf(),
        final(s).wf(),
        final(t).pml4() == old(t).pml4(),
        meets(dir_listed(*c, old(t)@, old(s)@, ino), *c, final(t)@, final(s)@, r),
{
    let fs = match crate::ext2::open(s.disk.as_slice()) {
        Ok(fs) => fs,
        Err(_) => { return Outcome::Return(EIO); },
    };
    match fs.read_dir(s.disk.as_slice(), ino) {
        Err(e) => Outcome::Panic(e),
        Ok(entries) => {
            let blob = crate::file::render_dir(entries.as_slice());
            let id: usize = s.files.add_dir(blob);
            let fd: i32 = t.fd_alloc(id);
            Outcome::Return(fd as i64)
        },
    }
}

/// The file at an absolute path opened for reading at the lowest free
/// descriptor; a directory is opened as a stream of records.
pub open spec fn path_opened(c: Caller, t: Tv, s: Sv, path: Seq<char>) -> Step {
    match crate::ext2::opened(s.disk) {
        Err(_) => back(c, t, s, EIO),
        Ok(fs) => match crate::ext2::path_ino(s.disk, fs, vstd::utf8::encode_utf8(path)) {
            Err(e) => Some((c, t, s, Outcome::Panic(e))),
            Ok(None) => back(c, t, s, ENOENT),
            Ok(Some(ino)) => match crate::ext2::inode_at(s.disk, fs, ino) {
                Err(e) => Some((c, t, s, Outcome::Panic(e))),
                Ok((mode, size, block)) => if mode & 0xF000 == 0x4000 {
                    dir_listed(c, t, s, ino)
                } else {
                    match crate::ext2::file_data(s.disk, fs, size, block) {
                        Err(e) => Some((c, t, s, Outcome::Panic(e))),
                        Ok(data) => {
                            let id = s.files.files.len() as int;
                            let (fds, fd) = task::fd_put(
                                t.fds,
                                Fd { obj: task::Obj::File(id), cloexec: false },
                            );
                            back(
                                c,
                                Tv { fds, ..t },
                                Sv {
                                    files: Ft {
                                        files: s.files.files.push(file::Fv::Mem(data, 0)),
                                        refs: s.files.refs.push(1),
                                        ..s.files
                                    },
                                    ..s
                                },
                                fd as i64,
                            )
                        },
                    }
                },
            },
        },
    }
}

/// Open the file at an absolute path.
pub fn open_resolved(c: &Caller, t: &mut Task, s: &mut Sys, path: &[char]) -> (r: Outcome)
    requires
        old(t).wf(),
        old(s).wf(),
    ensures
        final(t).wf(),
        final(s).wf(),
        final(t).pml4() == old(t).pml4(),
        meets(path_opened(*c, old(t)@, old(s)@, path@), *c, final(t)@, final(s)@, r),
{
    let fs = match crate::ext2::open(s.disk.as_slice()) {
        Ok(fs) => fs,
        Err(_) => { return Outcome::Return(EIO); },
    };
    let p = crate::text::string_of(path);
    let ino: u32 = match fs.path_lookup(s.disk.as_slice(), p.as_str()) {
        Err(e) => { return Outcome::Panic(e); },
        Ok(None) => { return Outcome::Return(ENOENT); },
        Ok(Some(i)) => i,
    };
    let node = match fs.read_inode(s.disk.as_slice(), ino) {
        Ok(n) => n,
        Err(e) => { return Outcome::Panic(e); },
    };
    if node.mode & 0xF000 == 0x4000 {
        return list_dir(c, t, s, ino);
    }
    match fs.read_file(s.disk.as_slice(), &node) {
        Err(e) => Outcome::Panic(e),
        Ok(data) => {
            let id: usize = s.files.add_mem(data);
            let fd: i32 = t.fd_alloc(id);
            Outcome::Return(fd as i64)
        },
    }
}

} // verus!
