//! Tasks: the process-tree layer. A task owns an address space, a table of
//! descriptors shared by both personalities, a working directory, and the user
//! APCs queued for it.
use vstd::prelude::*;

use crate::apc::ApcEntry;
use crate::file;
use crate::file::{FileTable, Ft};
use crate::process;
use crate::process::{Process, Space};
use crate::text;

verus! {

/// One more than the largest descriptor there can be.
pub const FD_LIMIT: usize = 0x8000_0000;

/// What a descriptor or handle names: an open file, a dispatcher object by its
/// number, or a registry key by its canonical path.
pub enum HandleObject {
    File(usize),
    Event(usize),
    Semaphore(usize),
    Mutant(usize),
    RegKey(Vec<char>),
}

pub enum Obj {
    File(int),
    Event(int),
    Semaphore(int),
    Mutant(int),
    RegKey(Seq<char>),
}

impl View for HandleObject {
    type V = Obj;

    open spec fn view(&self) -> Obj {
        match self {
            HandleObject::File(i) => Obj::File(*i as int),
            HandleObject::Event(i) => Obj::Event(*i as int),
            HandleObject::Semaphore(i) => Obj::Semaphore(*i as int),
            HandleObject::Mutant(i) => Obj::Mutant(*i as int),
            HandleObject::RegKey(p) => Obj::RegKey(p@),
        }
    }
}

impl HandleObject {
    fn copy(&self) -> (r: HandleObject)
        ensures
            r@ == self@,
    {
        match self {
            HandleObject::File(i) => HandleObject::File(*i),
            HandleObject::Event(i) => HandleObject::Event(*i),
            HandleObject::Semaphore(i) => HandleObject::Semaphore(*i),
            HandleObject::Mutant(i) => HandleObject::Mutant(*i),
            HandleObject::RegKey(p) => HandleObject::RegKey(crate::text::copy_chars(p.as_slice())),
        }
    }
}

/// A dispatcher object that a call can wait on.
#[derive(Clone, Copy)]
pub enum Waitable {
    Event(usize),
    Semaphore(usize),
    Mutant(usize),
}

/// One slot of a descriptor table.
pub struct FdEntry {
    pub obj: HandleObject,
    pub cloexec: bool,
}

pub struct Fd {
    pub obj: Obj,
    pub cloexec: bool,
}

pub open spec fn fd_view(e: Option<FdEntry>) -> Option<Fd> {
    match e {
        Some(x) => Some(Fd { obj: x.obj@, cloexec: x.cloexec }),
        None => None,
    }
}

pub open spec fn fd_views(v: Seq<Option<FdEntry>>) -> Seq<Option<Fd>> {
    v.map_values(|e: Option<FdEntry>| fd_view(e))
}

pub struct Task {
    pid: u64,
    ppid: u64,
    uid: u32,
    space: Process,
    exit_status: Option<i32>,
    exited: bool,
    fds: Vec<Option<FdEntry>>,
    cwd: Vec<char>,
    apcs: Vec<ApcEntry>,
}

#[verifier::ext_equal]
pub struct Tv {
    pub pid: u64,
    pub ppid: u64,
    pub uid: u32,
    pub space: Space,
    pub exit_status: Option<i32>,
    pub exited: bool,
    pub fds: Seq<Option<Fd>>,
    pub cwd: Seq<char>,
    pub apcs: Seq<ApcEntry>,
}

impl View for Task {
    type V = Tv;

    closed spec fn view(&self) -> Tv {
        Tv {
            pid: self.pid,
            ppid: self.ppid,
            uid: self.uid,
            space: self.space@,
            exit_status: self.exit_status,
            exited: self.exited,
            fds: fd_views(self.fds@),
            cwd: self.cwd@,
            apcs: self.apcs@,
        }
    }
}

/// What descriptor `fd` names, if it is open.
pub open spec fn obj_at(fds: Seq<Option<Fd>>, fd: int) -> Option<Obj> {
    if 0 <= fd < fds.len() {
        match fds[fd] {
            Some(e) => Some(e.obj),
            None => None,
        }
    } else {
        None
    }
}

/// The open file behind descriptor `fd`.
pub open spec fn file_at(fds: Seq<Option<Fd>>, fd: int) -> Option<int> {
    match obj_at(fds, fd) {
        Some(Obj::File(i)) => Some(i),
        _ => None,
    }
}

pub open spec fn event_at(fds: Seq<Option<Fd>>, h: int) -> Option<int> {
    match obj_at(fds, h) {
        Some(Obj::Event(i)) => Some(i),
        _ => None,
    }
}

pub open spec fn regkey_at(fds: Seq<Option<Fd>>, h: int) -> Option<Seq<char>> {
    match obj_at(fds, h) {
        Some(Obj::RegKey(p)) => Some(p),
        _ => None,
    }
}

/// The first free slot from `k` on; one past the end where there is none.
pub open spec fn free_slot(fds: Seq<Option<Fd>>, k: int) -> int
    decreases fds.len() - k,
{
    if k >= fds.len() {
        fds.len() as int
    } else if fds[k] is None {
        k
    } else {
        free_slot(fds, k + 1)
    }
}

/// `fds` with empty slots behind it up to length `n`.
pub open spec fn padded(fds: Seq<Option<Fd>>, n: int) -> Seq<Option<Fd>> {
    if n <= fds.len() {
        fds
    } else {
        fds + Seq::new((n - fds.len()) as nat, |i: int| None::<Fd>)
    }
}

/// `e` in the lowest free slot: the table and the slot, or -1 where the table
/// is full.
pub open spec fn fd_put(fds: Seq<Option<Fd>>, e: Fd) -> (Seq<Option<Fd>>, int) {
    let i = free_slot(fds, 0);
    if i < fds.len() {
        (fds.update(i, Some(e)), i)
    } else if i < FD_LIMIT {
        (fds.push(Some(e)), i)
    } else {
        (fds, -1)
    }
}

/// `old` duplicated to the lowest free slot at or above `min`, not
/// close-on-exec: the table and the slot, -9 where `old` is not open, or -1
/// where the table is full.
pub open spec fn fd_duped(fds: Seq<Option<Fd>>, old_fd: int, min: int) -> (Seq<Option<Fd>>, int) {
    match obj_at(fds, old_fd) {
        None => (fds, -9),
        Some(obj) => {
            let e = Fd { obj, cloexec: false };
            let m = if min < 0 {
                0
            } else {
                min
            };
            let i = free_slot(fds, m);
            if i < fds.len() {
                (fds.update(i, Some(e)), i)
            } else {
                let p = padded(fds, m);
                if p.len() < FD_LIMIT {
                    (p.push(Some(e)), p.len() as int)
                } else {
                    (fds, -1)
                }
            }
        },
    }
}

/// `new_fd` made to name what `old_fd` names: the table and `new_fd`, or -9
/// where `old_fd` is not open.
pub open spec fn fd_forced(
    fds: Seq<Option<Fd>>,
    old_fd: int,
    new_fd: int,
    cloexec: bool,
) -> (Seq<Option<Fd>>, int) {
    match obj_at(fds, old_fd) {
        None => (fds, -9),
        Some(obj) => if old_fd == new_fd {
            (fds, new_fd)
        } else {
            let n = if new_fd < 0 {
                0
            } else {
                new_fd
            };
            (padded(fds, n + 1).update(n, Some(Fd { obj, cloexec })), new_fd)
        },
    }
}

/// A forked child.
pub open spec fn child_of(t: Tv, pid: u64, uid: u32, space: Space) -> Tv {
    Tv {
        pid,
        ppid: t.pid,
        uid,
        space,
        exit_status: None,
        exited: false,
        fds: t.fds,
        cwd: t.cwd,
        apcs: Seq::empty(),
    }
}

/// Every descriptor marked close-on-exec dropped.
pub open spec fn kept_on_exec(fds: Seq<Option<Fd>>) -> Seq<Option<Fd>> {
    fds.map_values(
        |e: Option<Fd>|
            match e {
                Some(x) => if x.cloexec {
                    None::<Fd>
                } else {
                    e
                },
                None => e,
            },
    )
}

fn copy_fd(e: &Option<FdEntry>) -> (r: Option<FdEntry>)
    ensures
        fd_view(r) == fd_view(*e),
{
    match e {
        Some(x) => Some(FdEntry { obj: x.obj.copy(), cloexec: x.cloexec }),
        None => None,
    }
}

impl Task {
    pub closed spec fn wf(self) -> bool {
        &&& self.space.wf()
        &&& self.fds@.len() <= FD_LIMIT
    }

    /// The page-table root of the task's address space.
    pub open spec fn pml4(self) -> u64 {
        self@.space.root
    }

    /// A task with the console on its first three descriptors, in the root
    /// directory.
    pub fn new(files: &mut FileTable, pid: u64, ppid: u64, uid: u32, space: Process) -> (r: Task)
        requires
            old(files).wf(),
            space.wf(),
        ensures
            final(files).wf(),
            r.wf(),
            r.pml4() == space.pml4(),
            r@ == task_new(old(files)@, pid, ppid, uid, space@),
            final(files)@ == files_seeded(old(files)@),
    {
        proof {
            files.lemma_sizes();
        }
        let stdin: usize = files.add_keyboard();
        let out: usize = files.add_console(true);
        files.retain(out);
        let mut fds: Vec<Option<FdEntry>> = Vec::new();
        fds.push(Some(FdEntry { obj: HandleObject::File(stdin), cloexec: false }));
        fds.push(Some(FdEntry { obj: HandleObject::File(out), cloexec: false }));
        fds.push(Some(FdEntry { obj: HandleObject::File(out), cloexec: false }));
        let t = Task {
            pid,
            ppid,
            uid,
            space,
            exit_status: None,
            exited: false,
            fds,
            cwd: vec!['/'],
            apcs: Vec::new(),
        };
        proof {
            assert(t@ =~= task_new(old(files)@, pid, ppid, uid, space@));
            assert(files@ =~= files_seeded(old(files)@));
        }
        t
    }

    /// The open file behind a descriptor.
    pub fn fd_get(&self, fd: i32) -> (r: Option<usize>)
        requires
            self.wf(),
        ensures
            match file_at(self@.fds, fd as int) {
                Some(i) => r is Some && r->0 == i,
                None => r is None,
            },
    {
        if fd < 0 || fd as usize >= self.fds.len() {
            return None;
        }
        assert(self@.fds[fd as int] == fd_view(self.fds@[fd as int]));
        match &self.fds[fd as usize] {
            Some(FdEntry { obj: HandleObject::File(i), cloexec }) => Some(*i),
            _ => None,
        }
    }

    /// The event a handle names.
    pub fn handle_event(&self, h: i32) -> (r: Option<usize>)
        requires
            self.wf(),
        ensures
            match event_at(self@.fds, h as int) {
                Some(i) => r is Some && r->0 == i,
                None => r is None,
            },
    {
        if h < 0 || h as usize >= self.fds.len() {
            return None;
        }
        assert(self@.fds[h as int] == fd_view(self.fds@[h as int]));
        match &self.fds[h as usize] {
            Some(FdEntry { obj: HandleObject::Event(i), cloexec }) => Some(*i),
            _ => None,
        }
    }

    /// The dispatcher object a handle names.
    pub fn handle_waitable(&self, h: i32) -> (r: Option<Waitable>)
        requires
            self.wf(),
        ensures
            match obj_at(self@.fds, h as int) {
                Some(Obj::Event(i)) => r matches Some(Waitable::Event(j)) && j == i,
                Some(Obj::Semaphore(i)) => r matches Some(Waitable::Semaphore(j)) && j == i,
                Some(Obj::Mutant(i)) => r matches Some(Waitable::Mutant(j)) && j == i,
                _ => r is None,
            },
    {
        if h < 0 || h as usize >= self.fds.len() {
            return None;
        }
        assert(self@.fds[h as int] == fd_view(self.fds@[h as int]));
        match &self.fds[h as usize] {
            Some(e) => match &e.obj {
                HandleObject::Event(i) => Some(Waitable::Event(*i)),
                HandleObject::Semaphore(i) => Some(Waitable::Semaphore(*i)),
                HandleObject::Mutant(i) => Some(Waitable::Mutant(*i)),
                _ => None,
            },
            None => None,
        }
    }

    /// The path of the registry key a handle names.
    pub fn handle_regkey(&self, h: i32) -> (r: Option<Vec<char>>)
        requires
            self.wf(),
        ensures
            match regkey_at(self@.fds, h as int) {
                Some(p) => r is Some && r->0@ == p,
                None => r is None,
            },
    {
        if h < 0 || h as usize >= self.fds.len() {
            return None;
        }
        assert(self@.fds[h as int] == fd_view(self.fds@[h as int]));
        match &self.fds[h as usize] {
            Some(FdEntry { obj: HandleObject::RegKey(p), cloexec }) => Some(
                crate::text::copy_chars(p.as_slice()),
            ),
            _ => None,
        }
    }

    fn find_free(&self, from: usize) -> (i: usize)
        ensures
            i == free_slot(self@.fds, from as int),
            i <= self.fds@.len(),
    {
        let n: usize = self.fds.len();
        if from >= n {
            return n;
        }
        let mut k: usize = from;
        while k < n
            invariant
                k <= n,
                n == self.fds@.len(),
                free_slot(self@.fds, from as int) == free_slot(self@.fds, k as int),
            decreases n - k,
        {
            assert(self@.fds[k as int] == fd_view(self.fds@[k as int]));
            if self.fds[k].is_none() {
                return k;
            }
            k = k + 1;
        }
        n
    }

    /// Put an object at the lowest free descriptor; -1 where there is none.
    pub fn handle_alloc(&mut self, obj: HandleObject, cloexec: bool) -> (r: i32)
        requires
            old(self).wf(),
        ensures
            final(self).wf(),
            final(self).pml4() == old(self).pml4(),
            r >= -1,
            r < 0 ==> final(self)@ == old(self)@,
            ({
                let (fds, i) = fd_put(old(self)@.fds, Fd { obj: obj@, cloexec });
                r == i && final(self)@ == (Tv { fds, ..old(self)@ })
            }),
    {
        proof {
            lemma_free_slot(self@.fds, 0);
        }
        let i: usize = self.find_free(0);
        let n: usize = self.fds.len();
        let e = Some(FdEntry { obj, cloexec });
        if i < n {
            self.fds.set(i, e);
            assert(fd_views(self.fds@) =~= fd_views(old(self).fds@).update(i as int, fd_view(e)));
            i as i32
        } else if n < FD_LIMIT {
            self.fds.push(e);
            assert(fd_views(self.fds@) =~= fd_views(old(self).fds@).push(fd_view(e)));
            n as i32
        } else {
            -1
        }
    }

    pub fn fd_alloc(&mut self, file: usize) -> (r: i32)
        requires
            old(self).wf(),
        ensures
            final(self).wf(),
            final(self).pml4() == old(self).pml4(),
            r >= -1,
            r < 0 ==> final(self)@ == old(self)@,
            ({
                let (fds, i) = fd_put(
                    old(self)@.fds,
                    Fd { obj: Obj::File(file as int), cloexec: false },
                );
                r == i && final(self)@ == (Tv { fds, ..old(self)@ })
            }),
    {
        self.fd_alloc_flags(file, false)
    }

    pub fn fd_alloc_flags(&mut self, file: usize, cloexec: bool) -> (r: i32)
        requires
            old(self).wf(),
        ensures
            final(self).wf(),
            final(self).pml4() == old(self).pml4(),
            r >= -1,
            r < 0 ==> final(self)@ == old(self)@,
            ({
                let (fds, i) = fd_put(old(self)@.fds, Fd { obj: Obj::File(file as int), cloexec });
                r == i && final(self)@ == (Tv { fds, ..old(self)@ })
            }),
    {
        self.handle_alloc(HandleObject::File(file), cloexec)
    }

    pub fn handle_alloc_event(&mut self, ev: usize) -> (r: i32)
        requires
            old(self).wf(),
        ensures
            final(self).wf(),
            final(self).pml4() == old(self).pml4(),
            r >= -1,
            r < 0 ==> final(self)@ == old(self)@,
            ({
                let (fds, i) = fd_put(
                    old(self)@.fds,
                    Fd { obj: Obj::Event(ev as int), cloexec: false },
                );
                r == i && final(self)@ == (Tv { fds, ..old(self)@ })
            }),
    {
        self.handle_alloc(HandleObject::Event(ev), false)
    }

    pub fn handle_alloc_semaphore(&mut self, s: usize) -> (r: i32)
        requires
            old(self).wf(),
        ensures
            final(self).wf(),
            final(self).pml4() == old(self).pml4(),
            r >= -1,
            r < 0 ==> final(self)@ == old(self)@,
            ({
                let (fds, i) = fd_put(
                    old(self)@.fds,
                    Fd { obj: Obj::Semaphore(s as int), cloexec: false },
                );
                r == i && final(self)@ == (Tv { fds, ..old(self)@ })
            }),
    {
        self.handle_alloc(HandleObject::Semaphore(s), false)
    }

    pub fn handle_alloc_mutant(&mut self, m: usize) -> (r: i32)
        requires
            old(self).wf(),
        ensures
            final(self).wf(),
            final(self).pml4() == old(self).pml4(),
            r >= -1,
            r < 0 ==> final(self)@ == old(self)@,
            ({
                let (fds, i) = fd_put(
                    old(self)@.fds,
                    Fd { obj: Obj::Mutant(m as int), cloexec: false },
                );
                r == i && final(self)@ == (Tv { fds, ..old(self)@ })
            }),
    {
        self.handle_alloc(HandleObject::Mutant(m), false)
    }

    pub fn handle_alloc_regkey(&mut self, path: Vec<char>) -> (r: i32)
        requires
            old(self).wf(),
        ensures
            final(self).wf(),
            final(self).pml4() == old(self).pml4(),
            r >= -1,
            r < 0 ==> final(self)@ == old(self)@,
            ({
                let (fds, i) = fd_put(
                    old(self)@.fds,
                    Fd { obj: Obj::RegKey(path@), cloexec: false },
                );
                r == i && final(self)@ == (Tv { fds, ..old(self)@ })
            }),
    {
        self.handle_alloc(HandleObject::RegKey(path), false)
    }

    /// Close a descriptor; whether it was open.
    pub fn fd_close(&mut self, fd: i32) -> (r: bool)
        requires
            old(self).wf(),
        ensures
            final(self).wf(),
            final(self).pml4() == old(self).pml4(),
            r == (obj_at(old(self)@.fds, fd as int) is Some),
            final(self)@ == if r {
                (Tv { fds: old(self)@.fds.update(fd as int, None), ..old(self)@ })
            } else {
                old(self)@
            },
    {
        if fd < 0 || fd as usize >= self.fds.len() {
            return false;
        }
        let i: usize = fd as usize;
        assert(self@.fds[i as int] == fd_view(self.fds@[i as int]));
        if self.fds[i].is_none() {
            return false;
        }
        self.fds.set(i, None);
        assert(fd_views(self.fds@) =~= fd_views(old(self).fds@).update(i as int, None));
        true
    }

    /// The close-on-exec flag as 0 or 1, or -9 where the descriptor is not open.
    pub fn fd_get_cloexec(&self, fd: i32) -> (r: i32)
        requires
            self.wf(),
        ensures
            r == cloexec_of(self@.fds, fd as int),
    {
        if fd < 0 || fd as usize >= self.fds.len() {
            return -9;
        }
        assert(self@.fds[fd as int] == fd_view(self.fds@[fd as int]));
        match &self.fds[fd as usize] {
            Some(e) => if e.cloexec {
                1
            } else {
                0
            },
            None => -9,
        }
    }

    /// Set the close-on-exec flag: 0, or -9 where the descriptor is not open.
    pub fn fd_set_cloexec(&mut self, fd: i32, on: bool) -> (r: i32)
        requires
            old(self).wf(),
        ensures
            final(self).wf(),
            final(self).pml4() == old(self).pml4(),
            (final(self)@.fds, r as int) == cloexec_set(old(self)@.fds, fd as int, on),
            final(self)@ == (Tv { fds: final(self)@.fds, ..old(self)@ }),
    {
        if fd < 0 || fd as usize >= self.fds.len() {
            return -9;
        }
        let i: usize = fd as usize;
        assert(self@.fds[i as int] == fd_view(self.fds@[i as int]));
        match &self.fds[i] {
            Some(e) => {
                let n = Some(FdEntry { obj: e.obj.copy(), cloexec: on });
                self.fds.set(i, n);
                assert(fd_views(self.fds@) =~= fd_views(old(self).fds@).update(
                    i as int,
                    fd_view(n),
                ));
                0
            },
            None => -9,
        }
    }

    /// Duplicate a descriptor to the lowest free one at or above `min`.
    pub fn fd_dup(&mut self, oldfd: i32, min: i32) -> (r: i32)
        requires
            old(self).wf(),
        ensures
            final(self).wf(),
            final(self).pml4() == old(self).pml4(),
            ({
                let (fds, i) = fd_duped(old(self)@.fds, oldfd as int, min as int);
                r == i && final(self)@ == (Tv { fds, ..old(self)@ })
            }),
    {
        if oldfd < 0 || oldfd as usize >= self.fds.len() {
            return -9;
        }
        assert(self@.fds[oldfd as int] == fd_view(self.fds@[oldfd as int]));
        let obj = match &self.fds[oldfd as usize] {
            Some(e) => e.obj.copy(),
            None => { return -9; },
        };
        let e = Some(FdEntry { obj, cloexec: false });
        let m: usize = if min < 0 { 0 } else { min as usize };
        let i: usize = self.find_free(m);
        if i < self.fds.len() {
            self.fds.set(i, e);
            assert(fd_views(self.fds@) =~= fd_views(old(self).fds@).update(i as int, fd_view(e)));
            return i as i32;
        }
        if self.fds.len() == FD_LIMIT {
            return -1;
        }
        self.pad(m);
        let n: usize = self.fds.len();
        let ghost before = self.fds@;
        self.fds.push(e);
        assert(fd_views(self.fds@) =~= fd_views(before).push(fd_view(e)));
        n as i32
    }

    /// Add empty slots up to length `n`.
    fn pad(&mut self, n: usize)
        requires
            old(self).wf(),
            n <= FD_LIMIT,
        ensures
            final(self).wf(),
            final(self).pml4() == old(self).pml4(),
            final(self)@ == (Tv { fds: padded(old(self)@.fds, n as int), ..old(self)@ }),
            final(self).fds@.len() == padded(old(self)@.fds, n as int).len(),
    {
        let ghost fds0 = self@.fds;
        while self.fds.len() < n
            invariant
                n <= FD_LIMIT,
                self.wf(),
                self.pml4() == old(self).pml4(),
                self@ == (Tv { fds: self@.fds, ..old(self)@ }),
                fds0 == old(self)@.fds,
                fds0.len() <= self.fds@.len(),
                self.fds@.len() <= n || self.fds@.len() == fds0.len(),
                self@.fds =~= padded(fds0, self.fds@.len() as int),
            decreases n - self.fds@.len(),
        {
            let ghost before = self.fds@;
            self.fds.push(None);
            assert(fd_views(self.fds@) =~= fd_views(before).push(None));
            assert(self@.fds =~= padded(fds0, self.fds@.len() as int));
        }
    }

    /// Make `newfd` name what `oldfd` names.
    pub fn fd_dup2(&mut self, oldfd: i32, newfd: i32) -> (r: i32)
        requires
            old(self).wf(),
        ensures
            final(self).wf(),
            final(self).pml4() == old(self).pml4(),
            ({
                let (fds, i) = fd_forced(old(self)@.fds, oldfd as int, newfd as int, false);
                r == i && final(self)@ == (Tv { fds, ..old(self)@ })
            }),
    {
        self.fd_dup3(oldfd, newfd, false)
    }

    /// The same, with a close-on-exec flag for the new descriptor.
    pub fn fd_dup3(&mut self, oldfd: i32, newfd: i32, cloexec: bool) -> (r: i32)
        requires
            old(self).wf(),
        ensures
            final(self).wf(),
            final(self).pml4() == old(self).pml4(),
            ({
                let (fds, i) = fd_forced(old(self)@.fds, oldfd as int, newfd as int, cloexec);
                r == i && final(self)@ == (Tv { fds, ..old(self)@ })
            }),
    {
        if oldfd < 0 || oldfd as usize >= self.fds.len() {
            return -9;
        }
        assert(self@.fds[oldfd as int] == fd_view(self.fds@[oldfd as int]));
        let obj = match &self.fds[oldfd as usize] {
            Some(e) => e.obj.copy(),
            None => { return -9; },
        };
        if oldfd == newfd {
            return newfd;
        }
        let n: usize = if newfd < 0 { 0 } else { newfd as usize };
        self.pad(n + 1);
        let e = Some(FdEntry { obj, cloexec });
        let ghost before = self.fds@;
        self.fds.set(n, e);
        assert(fd_views(self.fds@) =~= fd_views(before).update(n as int, fd_view(e)));
        newfd
    }

    pub fn cwd(&self) -> (r: Vec<char>)
        ensures
            r@ == self@.cwd,
    {
        crate::text::copy_chars(self.cwd.as_slice())
    }

    pub fn set_cwd(&mut self, path: Vec<char>)
        requires
            old(self).wf(),
        ensures
            final(self).wf(),
            final(self).pml4() == old(self).pml4(),
            final(self)@ == (Tv { cwd: path@, ..old(self)@ }),
    {
        self.cwd = path;
    }

    /// Queue a user APC.
    pub fn apc_queue(&mut self, e: ApcEntry)
        requires
            old(self).wf(),
        ensures
            final(self).wf(),
            final(self).pml4() == old(self).pml4(),
            final(self)@ == (Tv { apcs: old(self)@.apcs.push(e), ..old(self)@ }),
    {
        self.apcs.push(e);
    }

    /// Take the oldest pending user APC.
    pub fn apc_take(&mut self) -> (r: Option<ApcEntry>)
        requires
            old(self).wf(),
        ensures
            final(self).wf(),
            final(self).pml4() == old(self).pml4(),
            old(self)@.apcs.len() == 0 ==> r is None && final(self)@ == old(self)@,
            old(self)@.apcs.len() > 0 ==> r == Some(old(self)@.apcs[0]) && final(self)@ == (Tv {
                apcs: old(self)@.apcs.skip(1),
                ..old(self)@
            }),
    {
        if self.apcs.len() == 0 {
            return None;
        }
        let e = self.apcs.remove(0);
        assert(self.apcs@ =~= old(self).apcs@.skip(1));
        Some(e)
    }

    /// Whether a user APC is queued.
    pub fn apc_pending(&self) -> (r: bool)
        ensures
            r == (self@.apcs.len() > 0),
    {
        self.apcs.len() > 0
    }

    /// Give the task another address space; the old one comes back.
    pub fn set_space(&mut self, space: Process) -> (r: Process)
        requires
            old(self).wf(),
            space.wf(),
        ensures
            final(self).wf(),
            final(self).pml4() == space.pml4(),
            final(self)@ == (Tv { space: space@, ..old(self)@ }),
            r@ == old(self)@.space,
    {
        let mut s = space;
        std::mem::swap(&mut s, &mut self.space);
        s
    }

    /// The size of the descriptor table.
    pub fn fd_count(&self) -> (r: usize)
        requires
            self.wf(),
        ensures
            r == self@.fds.len(),
            r <= FD_LIMIT,
    {
        self.fds.len()
    }

    /// Record an exit status and drop every descriptor.
    pub fn set_exit_status(&mut self, code: i32)
        requires
            old(self).wf(),
        ensures
            final(self).wf(),
            final(self).pml4() == old(self).pml4(),
            final(self)@ == (Tv {
                exit_status: Some(code),
                exited: true,
                fds: Seq::empty(),
                ..old(self)@
            }),
    {
        self.exit_status = Some(code);
        self.exited = true;
        self.fds = Vec::new();
        assert(fd_views(self.fds@) =~= Seq::empty());
    }

    /// Drop every descriptor marked close-on-exec.
    pub fn close_on_exec(&mut self)
        requires
            old(self).wf(),
        ensures
            final(self).wf(),
            final(self).pml4() == old(self).pml4(),
            final(self)@ == (Tv { fds: kept_on_exec(old(self)@.fds), ..old(self)@ }),
    {
        let n: usize = self.fds.len();
        let mut i: usize = 0;
        while i < n
            invariant
                i <= n,
                n == self.fds@.len(),
                n == old(self).fds@.len(),
                self.wf(),
                self.pml4() == old(self).pml4(),
                self@ == (Tv { fds: self@.fds, ..old(self)@ }),
                self@.fds =~= kept_on_exec(old(self)@.fds).take(i as int) + old(self)@.fds.skip(
                    i as int,
                ),
            decreases n - i,
        {
            assert(self@.fds[i as int] == fd_view(self.fds@[i as int]));
            assert(self@.fds[i as int] == old(self)@.fds[i as int]);
            let drop_it = match &self.fds[i] {
                Some(e) => e.cloexec,
                None => false,
            };
            let ghost before = self.fds@;
            if drop_it {
                self.fds.set(i, None);
                assert(fd_views(self.fds@) =~= fd_views(before).update(i as int, None));
            }
            i = i + 1;
            assert(self@.fds =~= kept_on_exec(old(self)@.fds).take(i as int) + old(self)@.fds.skip(
                i as int,
            ));
        }
        assert(self@.fds =~= kept_on_exec(old(self)@.fds));
    }

    pub fn fd_is_open(&self, fd: i32) -> (r: bool)
        requires
            self.wf(),
        ensures
            r == (obj_at(self@.fds, fd as int) is Some),
    {
        if fd < 0 || fd as usize >= self.fds.len() {
            return false;
        }
        assert(self@.fds[fd as int] == fd_view(self.fds@[fd as int]));
        self.fds[fd as usize].is_some()
    }

    /// Whether a descriptor is open and marked close-on-exec.
    pub fn closes_on_exec(&self, fd: i32) -> (r: bool)
        requires
            self.wf(),
            0 <= fd < self@.fds.len(),
        ensures
            r == (self@.fds[fd as int] matches Some(e) && e.cloexec),
    {
        assert(self@.fds[fd as int] == fd_view(self.fds@[fd as int]));
        match &self.fds[fd as usize] {
            Some(e) => e.cloexec,
            None => false,
        }
    }

    /// A child in its own address space: the same descriptors and
    /// working directory, and nothing queued.
    pub fn child(&self, pid: u64, uid: u32, space: Process) -> (r: Task)
        requires
            self.wf(),
            space.wf(),
        ensures
            r.wf(),
            r.pml4() == space.pml4(),
            r@ == child_of(self@, pid, uid, space@),
    {
        let mut fds: Vec<Option<FdEntry>> = Vec::new();
        let n: usize = self.fds.len();
        let mut i: usize = 0;
        while i < n
            invariant
                i <= n,
                n == self.fds@.len(),
                fds@.len() == i,
                forall|j: int| 0 <= j < i ==> fd_view(#[trigger] fds@[j]) == fd_view(self.fds@[j]),
            decreases n - i,
        {
            fds.push(copy_fd(&self.fds[i]));
            i = i + 1;
        }
        assert(fd_views(fds@) =~= fd_views(self.fds@));
        let r = Task {
            pid,
            ppid: self.pid,
            uid,
            space,
            exit_status: None,
            exited: false,
            fds,
            cwd: crate::text::copy_chars(self.cwd.as_slice()),
            apcs: Vec::new(),
        };
        assert(r@ =~= child_of(self@, pid, uid, space@));
        r
    }

    /// A copy of the task's address space on fresh frames, under the page-table
    /// root at `root`.
    pub fn copy_space(&self, fa: &mut crate::mm::FrameAllocator, root: u64) -> (r: Option<Process>)
        requires
            self.wf(),
        ensures
            match r {
                Some(c) => {
                    &&& c.wf()
                    &&& c@.root == root
                    &&& process::copied(self@.space, old(fa)@, c@, final(fa)@)
                },
                None => old(fa)@.len() < process::user_page_set(self@.space).len(),
            },
    {
        self.space.duplicate(fa, root)
    }

    pub fn pid(&self) -> (r: u64)
        ensures
            r == self@.pid,
    {
        self.pid
    }

    pub fn ppid(&self) -> (r: u64)
        ensures
            r == self@.ppid,
    {
        self.ppid
    }

    pub fn uid(&self) -> (r: u32)
        ensures
            r == self@.uid,
    {
        self.uid
    }

    pub fn exit_status(&self) -> (r: Option<i32>)
        ensures
            r == self@.exit_status,
    {
        self.exit_status
    }

    pub fn has_exited(&self) -> (r: bool)
        ensures
            r == self@.exited,
    {
        self.exited
    }
}

/// The task after `b` was stored at `a` in its memory, if that is mapped.
pub open spec fn poked(t: Tv, a: int, b: Seq<u8>) -> Option<Tv> {
    match process::stored(t.space, a, b) {
        Some(space) => Some(Tv { space, ..t }),
        None => None,
    }
}

impl Task {
    /// No byte of the task's memory lies past the last address.
    pub proof fn lemma_memory_ends(self, a: int)
        requires
            a > u64::MAX || a < 0,
        ensures
            !self@.space.mem.contains_key(a),
    {
        self.space.lemma_bounded(a);
    }

    /// The byte at `a` of the task's memory.
    pub fn load8(&self, a: u64) -> (r: Option<u8>)
        requires
            self.wf(),
        ensures
            r == if self@.space.mem.contains_key(a as int) {
                Some(self@.space.mem[a as int])
            } else {
                None
            },
    {
        self.space.read_u8(a)
    }

    /// The 16-bit word at `base + off` of the task's memory.
    pub fn load16(&self, base: u64, off: u64) -> (r: Option<u16>)
        requires
            self.wf(),
        ensures
            r == process::word16(self@.space.mem, base + off),
    {
        self.space.word16_at(base, off)
    }

    /// The 32-bit word at `base + off` of the task's memory.
    pub fn load32(&self, base: u64, off: u64) -> (r: Option<u32>)
        requires
            self.wf(),
        ensures
            r == process::word32(self@.space.mem, base + off),
    {
        self.space.word32_at(base, off)
    }

    /// The 64-bit word at `base + off` of the task's memory.
    pub fn load64(&self, base: u64, off: u64) -> (r: Option<u64>)
        requires
            self.wf(),
        ensures
            r == process::word64(self@.space.mem, base + off),
    {
        self.space.word64_at(base, off)
    }

    /// The `n` bytes at `base + off`, if they are mapped.
    pub fn load_at(&self, base: u64, off: u64, n: usize) -> (r: Option<Vec<u8>>)
        requires
            self.wf(),
            n > 0,
        ensures
            r is Some <==> process::mapped(self@.space.mem, base + off, n as int),
            r is Some ==> r->0@ == process::peek(self@.space.mem, base + off, n as nat),
    {
        self.space.read_at(base, off, n)
    }

    /// The `len` bytes at `a`; nothing where they are not all mapped, or are
    /// more than memory can hold.
    pub fn load_bytes(&self, a: u64, len: u64) -> (r: Option<Vec<u8>>)
        requires
            self.wf(),
        ensures
            r is Some <==> len <= usize::MAX && process::mapped(
                self@.space.mem,
                a as int,
                len as int,
            ),
            r is Some ==> r->0@ == process::peek(self@.space.mem, a as int, len as nat),
    {
        if len > usize::MAX as u64 {
            return None;
        }
        self.space.read(a, len as usize)
    }

    /// Whether `[a, a + len)` is mapped.
    pub fn is_mapped(&self, a: u64, len: u64) -> (r: bool)
        requires
            self.wf(),
        ensures
            r == process::mapped(self@.space.mem, a as int, len as int),
    {
        self.space.is_mapped(a, len)
    }

    /// Store bytes at `base + off` of the task's memory.
    pub fn store(&mut self, base: u64, off: u64, b: &[u8]) -> (ok: bool)
        requires
            old(self).wf(),
            b@.len() > 0,
        ensures
            final(self).wf(),
            final(self).pml4() == old(self).pml4(),
            match poked(old(self)@, base + off, b@) {
                Some(t) => ok && final(self)@ == t,
                None => !ok && final(self)@ == old(self)@,
            },
    {
        self.space.store_at(base, off, b)
    }

    /// Store bytes at `a`; storing none always succeeds.
    pub fn store_bytes(&mut self, a: u64, b: &[u8]) -> (ok: bool)
        requires
            old(self).wf(),
        ensures
            final(self).wf(),
            final(self).pml4() == old(self).pml4(),
            match poked(old(self)@, a as int, b@) {
                Some(t) => ok && final(self)@ == t,
                None => !ok && final(self)@ == old(self)@,
            },
    {
        self.space.store(a, b)
    }

    pub fn store32(&mut self, base: u64, off: u64, v: u32) -> (ok: bool)
        requires
            old(self).wf(),
        ensures
            final(self).wf(),
            final(self).pml4() == old(self).pml4(),
            match poked(old(self)@, base + off, crate::bytes::bytes32(v)) {
                Some(t) => ok && final(self)@ == t,
                None => !ok && final(self)@ == old(self)@,
            },
    {
        let b = crate::bytes::to_bytes32(v);
        self.store(base, off, b.as_slice())
    }

    pub fn store64(&mut self, base: u64, off: u64, v: u64) -> (ok: bool)
        requires
            old(self).wf(),
        ensures
            final(self).wf(),
            final(self).pml4() == old(self).pml4(),
            match poked(old(self)@, base + off, crate::bytes::bytes64(v)) {
                Some(t) => ok && final(self)@ == t,
                None => !ok && final(self)@ == old(self)@,
            },
    {
        let b = crate::bytes::to_bytes64(v);
        self.store(base, off, b.as_slice())
    }

    /// An anonymous mapping of `len` bytes; nothing where memory runs out.
    pub fn mmap(&mut self, fa: &mut crate::mm::FrameAllocator, len: u64) -> (r: Option<u64>)
        requires
            old(self).wf(),
        ensures
            final(self).wf(),
            final(self).pml4() == old(self).pml4(),
            (final(self)@, final(fa)@, r) == mmapped(old(self)@, old(fa)@, len),
    {
        self.space.mmap_anon(fa, len)
    }

    /// Map a worker thread's stack and environment block; the stack pointer to
    /// start with.
    pub fn map_thread(&mut self, fa: &mut crate::mm::FrameAllocator, start: u64, arg: u64) -> (r:
        Result<u64, &'static str>)
        requires
            old(self).wf(),
        ensures
            final(self).wf(),
            final(self).pml4() == old(self).pml4(),
            ({
                let (space, free, at) = crate::pe_loader::thread_pages(
                    old(self)@.space,
                    old(fa)@,
                    start,
                    arg,
                );
                final(self)@ == (Tv { space, ..old(self)@ }) && final(fa)@ == free && r == at
            }),
    {
        crate::pe_loader::map_thread(&mut self.space, fa, start, arg)
    }

    /// Move the program break; nothing where memory runs out.
    pub fn brk(&mut self, fa: &mut crate::mm::FrameAllocator, req: u64) -> (r: Option<u64>)
        requires
            old(self).wf(),
        ensures
            final(self).wf(),
            final(self).pml4() == old(self).pml4(),
            (final(self)@, final(fa)@, r) == broken(old(self)@, old(fa)@, req),
    {
        self.space.brk(fa, req)
    }

    /// Push an APC's context on the user stack and say where to go on.
    pub fn stage_apc(&mut self, r: &crate::apc::Regs, e: &ApcEntry) -> (out: Option<(u64, u64)>)
        requires
            old(self).wf(),
        ensures
            final(self).wf(),
            final(self).pml4() == old(self).pml4(),
            ({
                let at = crate::apc::context_at(r.rsp);
                if r.rsp >= 0x550 && process::mapped(old(self)@.space.mem, at, 0x4D0) {
                    &&& out == Some((at as u64, crate::apc::PE_KIUSERAPC_ADDR))
                    &&& final(self)@ == (Tv {
                        space: Space {
                            mem: process::poke(
                                old(self)@.space.mem,
                                at,
                                crate::apc::apc_context(*r, *e),
                            ),
                            ..old(self)@.space
                        },
                        ..old(self)@
                    })
                } else {
                    out is None && final(self)@ == old(self)@
                }
            }),
    {
        crate::apc::stage(&mut self.space, r, e)
    }
}

/// An anonymous mapping: the task, the free frames, and the base.
pub open spec fn mmapped(t: Tv, free: Seq<u64>, len: u64) -> (Tv, Seq<u64>, Option<u64>) {
    let base = t.space.next_va as int;
    let n = (process::page_up(len as int) / 4096) as nat;
    if n <= free.len() && base + n * 4096 + 4096 <= u64::MAX {
        (
            Tv {
                space: Space {
                    next_va: (base + n * 4096 + 4096) as u64,
                    ..process::with_zero_pages(t.space, free, base, n)
                },
                ..t
            },
            free.take(free.len() - n),
            Some(base as u64),
        )
    } else {
        (t, free, None)
    }
}

/// The program break moved: the task, the free frames, and the break.
pub open spec fn broken(t: Tv, free: Seq<u64>, req: u64) -> (Tv, Seq<u64>, Option<u64>) {
    let cur = t.space.brk as int;
    let grow = process::brk_pages(cur, req as int);
    if req < process::BRK_BASE || req > process::BRK_MAX {
        (t, free, Some(cur as u64))
    } else if grow > free.len() {
        (t, free, None)
    } else {
        (
            Tv {
                space: Space {
                    brk: req,
                    ..process::with_zero_pages(t.space, free, process::page_up(cur), grow)
                },
                ..t
            },
            free.take(free.len() - grow),
            Some(req),
        )
    }
}

pub open spec fn cloexec_of(fds: Seq<Option<Fd>>, fd: int) -> int {
    if 0 <= fd < fds.len() {
        match fds[fd] {
            Some(e) => if e.cloexec {
                1
            } else {
                0
            },
            None => -9,
        }
    } else {
        -9
    }
}

pub open spec fn cloexec_set(fds: Seq<Option<Fd>>, fd: int, on: bool) -> (Seq<Option<Fd>>, int) {
    match obj_at(fds, fd) {
        Some(obj) => (fds.update(fd, Some(Fd { obj, cloexec: on })), 0),
        None => (fds, -9),
    }
}

/// The file table after a task's console descriptors were made.
pub open spec fn files_seeded(t: Ft) -> Ft {
    Ft {
        files: t.files.push(file::Fv::Keyboard).push(file::Fv::Console(true)),
        refs: t.refs.push(1).push(2),
        ..t
    }
}

pub open spec fn task_new(t: Ft, pid: u64, ppid: u64, uid: u32, space: Space) -> Tv {
    let n = t.files.len() as int;
    Tv {
        pid,
        ppid,
        uid,
        space,
        exit_status: None,
        exited: false,
        fds: seq![
            Some(Fd { obj: Obj::File(n), cloexec: false }),
            Some(Fd { obj: Obj::File(n + 1), cloexec: false }),
            Some(Fd { obj: Obj::File(n + 1), cloexec: false }),
        ],
        cwd: seq!['/'],
        apcs: Seq::empty(),
    }
}

// --- laws of the descriptor table ---

/// A new descriptor is the lowest one that was free, names what was put there,
/// and leaves every other descriptor alone.
pub proof fn law_descriptor_is_lowest_free(fds: Seq<Option<Fd>>, e: Fd)
    requires
        fds.len() < FD_LIMIT,
    ensures
        ({
            let (after, i) = fd_put(fds, e);
            &&& 0 <= i < after.len()
            &&& after[i] == Some(e)
            &&& obj_at(fds, i) is None
            &&& forall|j: int| 0 <= j < i ==> (#[trigger] fds[j]) is Some
            &&& forall|j: int| 0 <= j < fds.len() && j != i ==> #[trigger] after[j] == fds[j]
        }),
{
    lemma_free_slot(fds, 0);
}

pub proof fn lemma_free_slot(fds: Seq<Option<Fd>>, k: int)
    requires
        0 <= k <= fds.len(),
    ensures
        k <= free_slot(fds, k) <= fds.len(),
        free_slot(fds, k) < fds.len() ==> fds[free_slot(fds, k)] is None,
        forall|j: int| k <= j < free_slot(fds, k) ==> (#[trigger] fds[j]) is Some,
    decreases fds.len() - k,
{
    if k < fds.len() && fds[k] is Some {
        lemma_free_slot(fds, k + 1);
    }
}

/// A duplicate names the same object as its original, and never carries
/// close-on-exec.
pub proof fn law_duplicate_names_the_same(fds: Seq<Option<Fd>>, a: int, min: int)
    requires
        obj_at(fds, a) is Some,
        0 <= min,
        min < FD_LIMIT,
        fds.len() < FD_LIMIT,
    ensures
        ({
            let (after, i) = fd_duped(fds, a, min);
            &&& i >= min
            &&& obj_at(after, i) == obj_at(fds, a)
            &&& cloexec_of(after, i) == 0
            &&& obj_at(fds, i) is None
        }),
{
    if min <= fds.len() {
        lemma_free_slot(fds, min);
    }
}

/// Closing what was just opened gives the table back, but for a trailing empty
/// slot.
pub proof fn law_close_undoes_open(fds: Seq<Option<Fd>>, e: Fd, j: int)
    requires
        fds.len() < FD_LIMIT,
    ensures
        ({
            let (after, i) = fd_put(fds, e);
            obj_at(after.update(i, None), j) == obj_at(fds, j)
        }),
{
    lemma_free_slot(fds, 0);
}

// --- paths ---

/// The components left after the parts `[i, ..)` were walked from `acc`.
pub open spec fn walked(acc: Seq<Seq<char>>, parts: Seq<Seq<char>>, i: int) -> Seq<Seq<char>>
    decreases parts.len() - i,
{
    if i >= parts.len() {
        acc
    } else if parts[i].len() == 0 || parts[i] == "."@ {
        walked(acc, parts, i + 1)
    } else if parts[i] == ".."@ {
        walked(
            if acc.len() > 0 {
                acc.drop_last()
            } else {
                acc
            },
            parts,
            i + 1,
        )
    } else {
        walked(acc.push(parts[i]), parts, i + 1)
    }
}

/// The components of `path` taken from `cwd`.
pub open spec fn path_parts(cwd: Seq<char>, path: Seq<char>) -> Seq<Seq<char>> {
    let base = if path.len() > 0 && path[0] == '/' {
        Seq::empty()
    } else {
        walked(Seq::empty(), text::pieces(cwd, false), 0)
    };
    walked(base, text::pieces(path, false), 0)
}

/// The clean absolute form of `path`: no empty, `.` or `..` component, never
/// above the root.
pub open spec fn resolved(cwd: Seq<char>, path: Seq<char>) -> Seq<char> {
    seq!['/'] + text::join(path_parts(cwd, path), '/')
}

fn walk(acc: &mut Vec<Vec<char>>, parts: &Vec<Vec<char>>)
    ensures
        text::texts(final(acc)@) == walked(text::texts(old(acc)@), text::texts(parts@), 0),
{
    let n: usize = parts.len();
    let dot = crate::text::chars_of(".");
    let dots = crate::text::chars_of("..");
    let ghost all = text::texts(parts@);
    let ghost acc0 = text::texts(acc@);
    let mut i: usize = 0;
    while i < n
        invariant
            i <= n,
            n == parts@.len(),
            all == text::texts(parts@),
            dot@ == "."@,
            dots@ == ".."@,
            walked(acc0, all, 0) == walked(text::texts(acc@), all, i as int),
        decreases n - i,
    {
        assert(all[i as int] == parts@[i as int]@);
        let ghost before = acc@;
        let p = parts[i].as_slice();
        if p.len() == 0 || crate::text::same_chars(p, dot.as_slice()) {
        } else if crate::text::same_chars(p, dots.as_slice()) {
            let _top = acc.pop();
            proof {
                if before.len() > 0 {
                    assert(text::texts(acc@) =~= text::texts(before).drop_last());
                } else {
                    assert(text::texts(acc@) =~= text::texts(before));
                }
            }
        } else {
            let w = crate::text::copy_chars(p);
            acc.push(w);
            assert(text::texts(acc@) =~= text::texts(before).push(w@));
        }
        i = i + 1;
    }
}

/// Resolve `path` against a working directory.
pub fn resolve_path(cwd: &[char], path: &[char]) -> (r: Vec<char>)
    ensures
        r@ == resolved(cwd@, path@),
{
    let mut comps: Vec<Vec<char>> = Vec::new();
    assert(text::texts(comps@) =~= Seq::empty());
    if path.len() > 0 && path[0] == '/' {
    } else {
        let base = crate::text::split(cwd, false);
        walk(&mut comps, &base);
    }
    let parts = crate::text::split(path, false);
    walk(&mut comps, &parts);
    let j = crate::text::join_with(&comps, '/');
    let mut r: Vec<char> = vec!['/'];
    assert(r@ =~= seq!['/']);
    crate::text::extend_chars(&mut r, j.as_slice());
    r
}

/// A component of a clean path.
pub open spec fn plain(p: Seq<char>) -> bool {
    text::clean(p, false) && p != "."@ && p != ".."@
}

proof fn lemma_walked_plain(acc: Seq<Seq<char>>, parts: Seq<Seq<char>>, i: int)
    requires
        forall|k: int| 0 <= k < acc.len() ==> plain(#[trigger] acc[k]),
        forall|k: int, j: int|
            #![trigger parts[k][j]]
            0 <= k < parts.len() && 0 <= j < parts[k].len() ==> !text::is_sep(parts[k][j], false),
        0 <= i,
    ensures
        forall|k: int|
            0 <= k < walked(acc, parts, i).len() ==> plain(#[trigger] walked(acc, parts, i)[k]),
    decreases parts.len() - i,
{
    if i < parts.len() {
        if parts[i].len() == 0 || parts[i] == "."@ {
            lemma_walked_plain(acc, parts, i + 1);
            assert(walked(acc, parts, i) == walked(acc, parts, i + 1));
        } else if parts[i] == ".."@ {
            let a = if acc.len() > 0 {
                acc.drop_last()
            } else {
                acc
            };
            assert forall|k: int| 0 <= k < a.len() implies plain(#[trigger] a[k]) by {
                assert(a[k] == acc[k]);
            }
            lemma_walked_plain(a, parts, i + 1);
            assert(walked(acc, parts, i) == walked(a, parts, i + 1));
        } else {
            let a = acc.push(parts[i]);
            assert(text::clean(parts[i], false)) by {
                assert forall|j: int| 0 <= j < parts[i].len() implies !text::is_sep(
                    #[trigger] parts[i][j],
                    false,
                ) by {}
            }
            assert forall|k: int| 0 <= k < a.len() implies plain(#[trigger] a[k]) by {
                if k < acc.len() {
                    assert(a[k] == acc[k]);
                }
            }
            lemma_walked_plain(a, parts, i + 1);
            assert(walked(acc, parts, i) == walked(a, parts, i + 1));
        }
    }
}

/// Walking plain components appends them.
proof fn lemma_walked_appends(acc: Seq<Seq<char>>, parts: Seq<Seq<char>>, i: int)
    requires
        0 <= i <= parts.len(),
        forall|k: int| i <= k < parts.len() ==> plain(#[trigger] parts[k]),
    ensures
        walked(acc, parts, i) == acc + parts.skip(i),
    decreases parts.len() - i,
{
    if i < parts.len() {
        assert(plain(parts[i]));
        lemma_walked_appends(acc.push(parts[i]), parts, i + 1);
        assert(acc.push(parts[i]) + parts.skip(i + 1) =~= acc + parts.skip(i));
    } else {
        assert(acc + parts.skip(i) =~= acc);
    }
}

/// A resolved path is absolute and made of plain components.
pub proof fn law_resolved_path_is_clean(cwd: Seq<char>, path: Seq<char>)
    ensures
        resolved(cwd, path).len() >= 1,
        resolved(cwd, path)[0] == '/',
        forall|k: int|
            0 <= k < path_parts(cwd, path).len() ==> plain(#[trigger] path_parts(cwd, path)[k]),
{
    text::lemma_pieces_without_seps(cwd, false);
    text::lemma_pieces_without_seps(path, false);
    lemma_walked_plain(Seq::empty(), text::pieces(cwd, false), 0);
    let base = if path.len() > 0 && path[0] == '/' {
        Seq::empty()
    } else {
        walked(Seq::empty(), text::pieces(cwd, false), 0)
    };
    lemma_walked_plain(base, text::pieces(path, false), 0);
}

/// Resolving a resolved path changes nothing, whatever the working directory.
pub proof fn law_resolve_is_idempotent(cwd: Seq<char>, path: Seq<char>, other: Seq<char>)
    ensures
        resolved(other, resolved(cwd, path)) == resolved(cwd, path),
{
    let c = path_parts(cwd, path);
    let r = resolved(cwd, path);
    law_resolved_path_is_clean(cwd, path);
    assert forall|k: int| 0 <= k < c.len() implies text::clean(#[trigger] c[k], false) by {
        assert(plain(c[k]));
    }
    let e = Seq::<Seq<char>>::empty();
    let p = text::pieces(r, false);
    if c.len() == 0 {
        assert(text::join(c, '/') =~= Seq::empty());
        text::lemma_pieces_of_rooted(text::join(c, '/'), false);
        assert(text::pieces(text::join(c, '/'), false) =~= seq![Seq::<char>::empty()]);
        assert(p =~= seq![Seq::<char>::empty(), Seq::<char>::empty()]);
        reveal_with_fuel(walked, 3);
        assert(walked(e, p, 0) =~= e);
        assert(c =~= e);
    } else {
        text::lemma_split_join(c, '/', false);
        text::lemma_pieces_of_rooted(text::join(c, '/'), false);
        assert(p =~= seq![Seq::<char>::empty()] + c);
        assert forall|k: int| 1 <= k < p.len() implies plain(#[trigger] p[k]) by {
            assert(p[k] == c[k - 1]);
        }
        assert(walked(e, p, 0) == walked(e, p, 1));
        lemma_walked_appends(e, p, 1);
        assert(e + p.skip(1) =~= c);
    }
}

} // verus!
