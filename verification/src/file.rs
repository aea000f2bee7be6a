//! Open files behind a descriptor: the keyboard, the console, files held in
//! memory, directory streams, and pipes.
//!
//! Every open file has an id in one table, with the number of descriptors that
//! name it. A pipe end goes away with the last of them.
use vstd::prelude::*;

use crate::bytes;
use crate::bytes::{put16, put64};
use crate::console;
use crate::console::{Con, Console};
use crate::wait::WaitQueue;

verus! {

pub const SEEK_SET: u32 = 0;

pub const SEEK_CUR: u32 = 1;

pub const SEEK_END: u32 = 2;

pub const EBADF: i64 = -9;

pub const ENOTDIR: i64 = -20;

pub const EISDIR: i64 = -21;

pub const EINVAL: i64 = -22;

pub const ESPIPE: i64 = -29;

pub const EPIPE: i64 = -32;

/// What a pipe holds at most.
pub const PIPE_CAP: usize = 65536;

/// The fixed head of a directory record, before the name.
pub const DIRENT_HEAD: usize = 19;

/// Standard input: blocking reads of what was typed.
pub struct KeyboardFile;

/// The serial console: output, no input.
pub struct ConsoleFile {
    pub writable: bool,
}

/// A whole file in memory, read-only.
pub struct MemFile {
    data: Vec<u8>,
    pos: u64,
}

/// A directory stream: records back to back.
pub struct DirFile {
    blob: Vec<u8>,
    pos: u64,
}

/// The read end of the pipe with this number.
pub struct PipeReadEnd(usize);

/// The write end of the pipe with this number.
pub struct PipeWriteEnd(usize);

/// An open file.
pub enum OpenFile {
    Keyboard(KeyboardFile),
    Console(ConsoleFile),
    Mem(MemFile),
    Dir(DirFile),
    PipeRead(PipeReadEnd),
    PipeWrite(PipeWriteEnd),
}

/// What an open file is.
pub enum Fv {
    Keyboard,
    Console(bool),
    Mem(Seq<u8>, int),
    Dir(Seq<u8>, int),
    PipeRead(int),
    PipeWrite(int),
}

impl View for OpenFile {
    type V = Fv;

    closed spec fn view(&self) -> Fv {
        match self {
            OpenFile::Keyboard(_) => Fv::Keyboard,
            OpenFile::Console(f) => Fv::Console(f.writable),
            OpenFile::Mem(f) => Fv::Mem(f.data@, f.pos as int),
            OpenFile::Dir(f) => Fv::Dir(f.blob@, f.pos as int),
            OpenFile::PipeRead(p) => Fv::PipeRead(p.0 as int),
            OpenFile::PipeWrite(p) => Fv::PipeWrite(p.0 as int),
        }
    }
}

/// A byte stream with the number of its open ends, and the threads that wait
/// for it to change.
pub struct Pipe {
    buf: Vec<u8>,
    readers: u64,
    writers: u64,
    waiters: WaitQueue,
}

#[verifier::ext_equal]
pub struct Pv {
    pub buf: Seq<u8>,
    pub readers: int,
    pub writers: int,
    pub waiters: Seq<u64>,
}

impl View for Pipe {
    type V = Pv;

    closed spec fn view(&self) -> Pv {
        Pv {
            buf: self.buf@,
            readers: self.readers as int,
            writers: self.writers as int,
            waiters: self.waiters@,
        }
    }
}

/// Every open file with its number of descriptors, every pipe, and the threads
/// that changes to the pipes have woken.
pub struct FileTable {
    files: Vec<OpenFile>,
    refs: Vec<u64>,
    pipes: Vec<Pipe>,
    woken: Vec<u64>,
}

#[verifier::ext_equal]
pub struct Ft {
    pub files: Seq<Fv>,
    pub refs: Seq<u64>,
    pub pipes: Seq<Pv>,
    pub woken: Seq<u64>,
}

/// A table without files.
pub open spec fn no_files() -> Ft {
    Ft { files: Seq::empty(), refs: Seq::empty(), pipes: Seq::empty(), woken: Seq::empty() }
}

pub open spec fn file_views(v: Seq<OpenFile>) -> Seq<Fv> {
    v.map_values(|f: OpenFile| f@)
}

pub open spec fn pipe_views(v: Seq<Pipe>) -> Seq<Pv> {
    v.map_values(|p: Pipe| p@)
}

impl View for FileTable {
    type V = Ft;

    closed spec fn view(&self) -> Ft {
        Ft {
            files: file_views(self.files@),
            refs: self.refs@,
            pipes: pipe_views(self.pipes@),
            woken: self.woken@,
        }
    }
}

/// What a read gives: bytes (none: end of file), an error number, nothing yet,
/// or a record that cannot be read.
pub enum Got {
    Bytes(Vec<u8>),
    Fail(i64),
    Block,
    Broken,
}

pub enum Gotten {
    Bytes(Seq<u8>),
    Fail(i64),
    Block,
    Broken,
}

impl View for Got {
    type V = Gotten;

    open spec fn view(&self) -> Gotten {
        match self {
            Got::Bytes(b) => Gotten::Bytes(b@),
            Got::Fail(e) => Gotten::Fail(*e),
            Got::Block => Gotten::Block,
            Got::Broken => Gotten::Broken,
        }
    }
}

/// What a write gives: the result, or how much went in before it has to wait.
#[derive(Clone, Copy)]
pub enum Put {
    Done(i64),
    Block(u64),
}

pub open spec fn least(a: int, b: int) -> int {
    if a <= b {
        a
    } else {
        b
    }
}

/// `n` bytes of `data` from `pos` on, as far as there are any.
pub open spec fn window(data: Seq<u8>, pos: int, n: int) -> Seq<u8> {
    if pos >= data.len() {
        Seq::empty()
    } else {
        data.subrange(pos, pos + least(n, data.len() - pos))
    }
}

/// Pipe `p` changed to `q`: whoever waited for that is woken.
pub open spec fn stirred(t: Ft, p: int, q: Pv) -> Ft {
    Ft {
        pipes: t.pipes.update(p, Pv { waiters: Seq::empty(), ..q }),
        woken: t.woken + t.pipes[p].waiters,
        ..t
    }
}

/// Thread `tid` waits for the pipe behind file `id` to change.
pub open spec fn file_awaited(t: Ft, id: int, tid: u64) -> Ft {
    match t.files[id] {
        Fv::PipeRead(p) => Ft {
            pipes: t.pipes.update(
                p,
                Pv { waiters: t.pipes[p].waiters.push(tid), ..t.pipes[p] },
            ),
            ..t
        },
        Fv::PipeWrite(p) => Ft {
            pipes: t.pipes.update(
                p,
                Pv { waiters: t.pipes[p].waiters.push(tid), ..t.pipes[p] },
            ),
            ..t
        },
        _ => t,
    }
}

/// A read of at most `n` bytes.
pub open spec fn file_read(t: Ft, con: Con, id: int, n: int) -> (Ft, Con, Gotten) {
    match t.files[id] {
        Fv::Keyboard => if n == 0 || con.queue.len() == 0 {
            (t, con, Gotten::Block)
        } else {
            let (c, b) = console::taken(con, n);
            (t, c, Gotten::Bytes(b))
        },
        Fv::Console(_) => (t, con, Gotten::Bytes(Seq::empty())),
        Fv::Mem(data, pos) => {
            let got = window(data, pos, n);
            (
                Ft { files: t.files.update(id, Fv::Mem(data, pos + got.len())), ..t },
                con,
                Gotten::Bytes(got),
            )
        },
        Fv::Dir(_, _) => (t, con, Gotten::Fail(EISDIR)),
        Fv::PipeRead(p) => {
            let q = t.pipes[p];
            if q.buf.len() > 0 {
                let k = least(n, q.buf.len() as int);
                (
                    stirred(t, p, Pv { buf: q.buf.skip(k), ..q }),
                    con,
                    Gotten::Bytes(q.buf.take(k)),
                )
            } else if q.writers == 0 {
                (t, con, Gotten::Bytes(Seq::empty()))
            } else {
                (t, con, Gotten::Block)
            }
        },
        Fv::PipeWrite(_) => (t, con, Gotten::Fail(EBADF)),
    }
}

/// A write of `data`, of which the first `done` bytes went in before; `out` is
/// what the serial line has been sent.
pub open spec fn file_write(t: Ft, out: Seq<u8>, id: int, data: Seq<u8>, done: int) -> (
    Ft,
    Seq<u8>,
    Put,
) {
    match t.files[id] {
        Fv::Keyboard => (t, out, Put::Done(EBADF)),
        Fv::Console(writable) => if writable {
            (t, out + data, Put::Done(data.len() as i64))
        } else {
            (t, out, Put::Done(EBADF))
        },
        Fv::Mem(_, _) => (t, out, Put::Done(EBADF)),
        Fv::Dir(_, _) => (t, out, Put::Done(EISDIR)),
        Fv::PipeRead(_) => (t, out, Put::Done(EBADF)),
        Fv::PipeWrite(p) => {
            let q = t.pipes[p];
            if done >= data.len() {
                (t, out, Put::Done(data.len() as i64))
            } else if q.readers == 0 {
                (
                    t,
                    out,
                    Put::Done(
                        if done == 0 {
                            EPIPE
                        } else {
                            done as i64
                        },
                    ),
                )
            } else {
                let k = least(PIPE_CAP - q.buf.len(), data.len() - done);
                (
                    if k > 0 {
                        stirred(t, p, Pv { buf: q.buf + data.subrange(done, done + k), ..q })
                    } else {
                        t
                    },
                    out,
                    if done + k == data.len() {
                        Put::Done(data.len() as i64)
                    } else {
                        Put::Block((done + k) as u64)
                    },
                )
            }
        },
    }
}

/// Move a file's position.
pub open spec fn file_seek(t: Ft, id: int, off: i64, whence: u32) -> (Ft, i64) {
    match t.files[id] {
        Fv::Mem(data, pos) => {
            let np = off + if whence == SEEK_SET {
                0
            } else if whence == SEEK_CUR {
                pos
            } else {
                data.len() as int
            };
            if whence > 2 || np < 0 || np > i64::MAX {
                (t, EINVAL)
            } else {
                (Ft { files: t.files.update(id, Fv::Mem(data, np)), ..t }, np as i64)
            }
        },
        Fv::Dir(blob, pos) => if whence == SEEK_SET {
            let np = if off < 0 {
                0
            } else {
                off
            };
            (Ft { files: t.files.update(id, Fv::Dir(blob, np as int)), ..t }, np)
        } else {
            (t, EINVAL)
        },
        _ => (t, ESPIPE),
    }
}

/// The mode bits and the size.
pub open spec fn file_stat(t: Ft, id: int) -> (u32, u64) {
    match t.files[id] {
        Fv::Keyboard => (0o020620, 0),
        Fv::Console(_) => (0o020620, 0),
        Fv::Mem(data, _) => (0o100644, data.len() as u64),
        Fv::Dir(blob, _) => (0o040755, blob.len() as u64),
        Fv::PipeRead(_) => (0o010600, 0),
        Fv::PipeWrite(_) => (0o010600, 0),
    }
}

/// How many bytes of whole records from `at` on fit into `room`; none where a
/// record is cut short.
pub open spec fn records(blob: Seq<u8>, at: int, n: int, room: int) -> Option<int>
    decreases blob.len() - at - n,
{
    let rl = bytes::le16(blob, at + n + 16) as int;
    if at + n >= blob.len() {
        Some(n)
    } else if at + n + 18 > blob.len() || rl == 0 {
        None
    } else if n + rl > room {
        Some(n)
    } else if at + n + rl > blob.len() {
        None
    } else {
        records(blob, at, n + rl, room)
    }
}

/// Directory records, as many whole ones as fit into `room` bytes.
pub open spec fn file_getdents(t: Ft, id: int, room: int) -> (Ft, Gotten) {
    match t.files[id] {
        Fv::Dir(blob, pos) => match records(blob, pos, 0, room) {
            None => (t, Gotten::Broken),
            Some(n) => if n == 0 && pos < blob.len() {
                (t, Gotten::Fail(EINVAL))
            } else if n == 0 {
                (t, Gotten::Bytes(Seq::empty()))
            } else {
                (
                    Ft { files: t.files.update(id, Fv::Dir(blob, pos + n)), ..t },
                    Gotten::Bytes(blob.subrange(pos, pos + n)),
                )
            },
        },
        _ => (t, Gotten::Fail(ENOTDIR)),
    }
}

/// One less, but not below 0.
pub open spec fn less(n: int) -> int {
    if n > 0 {
        n - 1
    } else {
        n
    }
}

/// One descriptor less names the file; with the last one a pipe end closes, and
/// whoever waits at the other end is woken.
pub open spec fn file_released(t: Ft, id: int) -> Ft {
    let left = if t.refs[id] > 0 {
        (t.refs[id] - 1) as u64
    } else {
        0
    };
    let u = Ft { refs: t.refs.update(id, left), ..t };
    if t.refs[id] != 1 {
        u
    } else {
        match t.files[id] {
            Fv::PipeRead(p) => stirred(
                u,
                p,
                Pv { readers: less(t.pipes[p].readers), ..t.pipes[p] },
            ),
            Fv::PipeWrite(p) => stirred(
                u,
                p,
                Pv { writers: less(t.pipes[p].writers), ..t.pipes[p] },
            ),
            _ => u,
        }
    }
}

/// One descriptor more names the file.
pub open spec fn file_retained(t: Ft, id: int) -> Ft {
    Ft {
        refs: t.refs.update(
            id,
            if t.refs[id] == u64::MAX {
                u64::MAX
            } else {
                (t.refs[id] + 1) as u64
            },
        ),
        ..t
    }
}

/// The records of `(inode, type, name)` entries, from entry `i` on, behind
/// `blob`: each padded to a multiple of 8 bytes and naming its own length and
/// where the next one starts.
pub open spec fn dirents(blob: Seq<u8>, entries: Seq<(u64, u8, Seq<u8>)>, i: int) -> Seq<u8>
    decreases entries.len() - i,
{
    if i >= entries.len() {
        blob
    } else {
        dirents(blob + dirent(blob.len() as int, entries[i].0, entries[i].1, entries[i].2), entries, i + 1)
    }
}

/// One directory record that starts at offset `s`.
pub open spec fn dirent(s: int, ino: u64, kind: u8, name: Seq<u8>) -> Seq<u8> {
    let reclen = (27 + name.len() as int) / 8 * 8;
    let b = bytes::zeros(reclen as nat);
    let b = crate::apc::w64(b, 0, ino);
    let b = crate::apc::w64(b, 8, (s + reclen) as u64);
    let b = crate::apc::w16(b, 16, reclen as u16);
    let b = bytes::splice(b, 18, seq![kind]);
    bytes::splice(b, 19, name)
}

fn make_dirent(s: usize, ino: u64, kind: u8, name: &[u8]) -> (b: Vec<u8>)
    requires
        name@.len() <= 255,
    ensures
        b@ == dirent(s as int, ino, kind, name@),
{
    let n: usize = name.len();
    let reclen: usize = (27 + n) / 8 * 8;
    let mut b = crate::bytes::zeroed(reclen);
    put64(&mut b, 0, ino);
    put64(&mut b, 8, (s as u128 + reclen as u128) as u64);
    put16(&mut b, 16, reclen as u16);
    let k: Vec<u8> = vec![kind];
    assert(k@ =~= seq![kind]);
    crate::bytes::put(&mut b, 18, k.as_slice());
    crate::bytes::put(&mut b, 19, name);
    b
}

/// No name is longer than a directory's record can hold.
pub open spec fn listable(entries: Seq<(u64, u8, Seq<u8>)>) -> bool {
    forall|k: int| 0 <= k < entries.len() ==> (#[trigger] entries[k]).2.len() <= 255
}

/// The records of a directory.
pub fn render_dir(entries: &[(u64, u8, Vec<u8>)]) -> (r: Vec<u8>)
    requires
        listable(crate::ext2::entry_views(entries@)),
    ensures
        r@ == dirents(Seq::empty(), crate::ext2::entry_views(entries@), 0),
{
    let ghost es = crate::ext2::entry_views(entries@);
    let mut r: Vec<u8> = Vec::new();
    let n: usize = entries.len();
    let mut i: usize = 0;
    while i < n
        invariant
            i <= n,
            n == entries@.len(),
            es == crate::ext2::entry_views(entries@),
            listable(es),
            dirents(Seq::empty(), es, 0) == dirents(r@, es, i as int),
        decreases n - i,
    {
        let e = &entries[i];
        assert(es[i as int].2.len() <= 255);
        let b = make_dirent(r.len(), e.0, e.1, e.2.as_slice());
        crate::bytes::extend(&mut r, b.as_slice());
        i = i + 1;
    }
    r
}

impl FileTable {
    /// Every pipe end names a pipe, and no pipe holds more than it may.
    pub closed spec fn wf(self) -> bool {
        &&& self.files@.len() == self.refs@.len()
        &&& forall|i: int|
            0 <= i < self.files@.len() ==> (match #[trigger] self.files@[i]@ {
                Fv::PipeRead(p) => p < self.pipes@.len(),
                Fv::PipeWrite(p) => p < self.pipes@.len(),
                _ => true,
            })
        &&& forall|p: int|
            0 <= p < self.pipes@.len() ==> (#[trigger] self.pipes@[p]).buf@.len() <= PIPE_CAP
    }

    /// Each file has its number of descriptors, and each pipe end its pipe.
    pub proof fn lemma_sizes(self)
        requires
            self.wf(),
        ensures
            self@.files.len() == self@.refs.len(),
            forall|i: int|
                0 <= i < self@.files.len() ==> (match #[trigger] self@.files[i] {
                    Fv::PipeRead(p) => 0 <= p < self@.pipes.len(),
                    Fv::PipeWrite(p) => 0 <= p < self@.pipes.len(),
                    _ => true,
                }),
    {
        assert forall|i: int| 0 <= i < self@.files.len() implies (match #[trigger] self@.files[i] {
            Fv::PipeRead(p) => 0 <= p < self@.pipes.len(),
            Fv::PipeWrite(p) => 0 <= p < self@.pipes.len(),
            _ => true,
        }) by {
            assert(self@.files[i] == self.files@[i]@);
        }
    }

    pub fn new() -> (r: Self)
        ensures
            r.wf(),
            r@ == no_files(),
    {
        let r = FileTable {
            files: Vec::new(),
            refs: Vec::new(),
            pipes: Vec::new(),
            woken: Vec::new(),
        };
        assert(r@ =~= no_files());
        r
    }

    pub fn len(&self) -> (r: usize)
        ensures
            r == self@.files.len(),
    {
        assert(file_views(self.files@).len() == self.files@.len());
        self.files.len()
    }

    fn push(&mut self, f: OpenFile) -> (id: usize)
        requires
            old(self).wf(),
            match f@ {
                Fv::PipeRead(p) => p < old(self)@.pipes.len(),
                Fv::PipeWrite(p) => p < old(self)@.pipes.len(),
                _ => true,
            },
        ensures
            final(self).wf(),
            id == old(self)@.files.len(),
            final(self)@ == (Ft {
                files: old(self)@.files.push(f@),
                refs: old(self)@.refs.push(1),
                ..old(self)@
            }),
    {
        let id: usize = self.files.len();
        self.files.push(f);
        self.refs.push(1);
        proof {
            assert(self@ =~= (Ft {
                files: old(self)@.files.push(f@),
                refs: old(self)@.refs.push(1),
                ..old(self)@
            }));
            assert forall|i: int| 0 <= i < self.files@.len() implies (match #[trigger] self.files@[i]@ {
                Fv::PipeRead(p) => p < self.pipes@.len(),
                Fv::PipeWrite(p) => p < self.pipes@.len(),
                _ => true,
            }) by {
                if i < old(self).files@.len() {
                    assert(self.files@[i] == old(self).files@[i]);
                }
            }
        }
        id
    }

    /// Standard input.
    pub fn add_keyboard(&mut self) -> (id: usize)
        requires
            old(self).wf(),
        ensures
            final(self).wf(),
            id == old(self)@.files.len(),
            final(self)@ == (Ft {
                files: old(self)@.files.push(Fv::Keyboard),
                refs: old(self)@.refs.push(1),
                ..old(self)@
            }),
    {
        self.push(OpenFile::Keyboard(KeyboardFile))
    }

    /// Standard output.
    pub fn add_console(&mut self, writable: bool) -> (id: usize)
        requires
            old(self).wf(),
        ensures
            final(self).wf(),
            id == old(self)@.files.len(),
            final(self)@ == (Ft {
                files: old(self)@.files.push(Fv::Console(writable)),
                refs: old(self)@.refs.push(1),
                ..old(self)@
            }),
    {
        self.push(OpenFile::Console(ConsoleFile { writable }))
    }

    /// A file held in memory, at its start.
    pub fn add_mem(&mut self, data: Vec<u8>) -> (id: usize)
        requires
            old(self).wf(),
        ensures
            final(self).wf(),
            id == old(self)@.files.len(),
            final(self)@ == (Ft {
                files: old(self)@.files.push(Fv::Mem(data@, 0)),
                refs: old(self)@.refs.push(1),
                ..old(self)@
            }),
    {
        self.push(OpenFile::Mem(MemFile { data, pos: 0 }))
    }

    /// A directory stream, at its start.
    pub fn add_dir(&mut self, blob: Vec<u8>) -> (id: usize)
        requires
            old(self).wf(),
        ensures
            final(self).wf(),
            id == old(self)@.files.len(),
            final(self)@ == (Ft {
                files: old(self)@.files.push(Fv::Dir(blob@, 0)),
                refs: old(self)@.refs.push(1),
                ..old(self)@
            }),
    {
        self.push(OpenFile::Dir(DirFile { blob, pos: 0 }))
    }

    /// A fresh pipe: its read end and its write end.
    pub fn pipe(&mut self) -> (r: (usize, usize))
        requires
            old(self).wf(),
        ensures
            final(self).wf(),
            r.0 == old(self)@.files.len(),
            r.1 == old(self)@.files.len() + 1,
            final(self)@ == piped(old(self)@),
    {
        let p: usize = self.pipes.len();
        let q = Pipe { buf: Vec::new(), readers: 1, writers: 1, waiters: WaitQueue::new() };
        let ghost q0 = new_pipe();
        assert(q@ =~= q0);
        self.pipes.push(q);
        proof {
            assert(pipe_views(self.pipes@) =~= pipe_views(old(self).pipes@).push(q0));
        }
        let r = self.push(OpenFile::PipeRead(PipeReadEnd(p)));
        let w = self.push(OpenFile::PipeWrite(PipeWriteEnd(p)));
        assert(self@ =~= piped(old(self)@));
        (r, w)
    }

    /// Wake whoever waits for pipe `p` to change.
    fn stir(&mut self, p: usize)
        requires
            old(self).wf(),
            p < old(self)@.pipes.len(),
        ensures
            final(self).wf(),
            final(self)@ == stirred(old(self)@, p as int, old(self)@.pipes[p as int]),
            final(self).files == old(self).files,
            final(self).refs == old(self).refs,
    {
        let ghost pipes0 = self.pipes@;
        let w = self.pipes[p].waiters.wake_all();
        let mut i: usize = 0;
        let n: usize = w.len();
        let ghost w0 = self.woken@;
        assert(pipe_views(self.pipes@) =~= pipe_views(pipes0).update(
            p as int,
            self.pipes@[p as int]@,
        ));
        let ghost pipes1 = self.pipes;
        while i < n
            invariant
                i <= n,
                n == w@.len(),
                self.woken@ == w0 + w@.take(i as int),
                self.pipes == pipes1,
                self.files == old(self).files,
                self.refs == old(self).refs,
            decreases n - i,
        {
            self.woken.push(w[i]);
            i = i + 1;
            assert(self.woken@ =~= w0 + w@.take(i as int));
        }
        assert(w@.take(n as int) =~= w@);
        assert(self@ =~= stirred(old(self)@, p as int, old(self)@.pipes[p as int]));
    }

    /// Queue a thread until the pipe behind a file changes.
    pub fn wait(&mut self, id: usize, tid: u64)
        requires
            old(self).wf(),
            id < old(self)@.files.len(),
        ensures
            final(self).wf(),
            final(self)@ == file_awaited(old(self)@, id as int, tid),
    {
        assert(self@.files[id as int] == self.files@[id as int]@);
        let p: usize = match &self.files[id] {
            OpenFile::PipeRead(PipeReadEnd(p)) => *p,
            OpenFile::PipeWrite(PipeWriteEnd(p)) => *p,
            _ => { return ; },
        };
        let ghost pipes0 = self.pipes@;
        self.pipes[p].waiters.wait(tid);
        assert(pipe_views(self.pipes@) =~= pipe_views(pipes0).update(
            p as int,
            self.pipes@[p as int]@,
        ));
    }

    /// The file is the keyboard.
    pub fn is_keyboard(&self, id: usize) -> (r: bool)
        requires
            id < self@.files.len(),
        ensures
            r == (self@.files[id as int] == Fv::Keyboard),
    {
        assert(self@.files[id as int] == self.files@[id as int]@);
        match &self.files[id] {
            OpenFile::Keyboard(_) => true,
            _ => false,
        }
    }

    /// Hand out the threads that were woken.
    pub fn take_woken(&mut self) -> (r: Vec<u64>)
        requires
            old(self).wf(),
        ensures
            final(self).wf(),
            r@ == old(self)@.woken,
            final(self)@ == (Ft { woken: Seq::empty(), ..old(self)@ }),
    {
        let mut out: Vec<u64> = Vec::new();
        std::mem::swap(&mut out, &mut self.woken);
        assert(self@ =~= (Ft { woken: Seq::empty(), ..old(self)@ }));
        out
    }

    /// Read at most `n` bytes.
    pub fn read(&mut self, con: &mut Console, id: usize, n: usize) -> (r: Got)
        requires
            old(self).wf(),
            id < old(self)@.files.len(),
        ensures
            final(self).wf(),
            (final(self)@, final(con)@, r@) == file_read(
                old(self)@,
                old(con)@,
                id as int,
                n as int,
            ),
    {
        let ghost fs = self.files@;
        assert(self@.files[id as int] == self.files@[id as int]@);
        let mut here: Option<usize> = None;
        let r = match &mut self.files[id] {
            OpenFile::Keyboard(_) => {
                if n == 0 || !con.has_input() {
                    Got::Block
                } else {
                    Got::Bytes(con.read(n))
                }
            },
            OpenFile::Console(ConsoleFile { writable }) => {
                let none: Vec<u8> = Vec::new();
                assert(none@ =~= Seq::<u8>::empty());
                Got::Bytes(none)
            },
            OpenFile::Mem(MemFile { data, pos }) => {
                let len: usize = data.len();
                if *pos >= len as u64 {
                    let none: Vec<u8> = Vec::new();
                    assert(none@ =~= Seq::<u8>::empty());
                    Got::Bytes(none)
                } else {
                    let at: usize = *pos as usize;
                    let k: usize = if n <= len - at { n } else { len - at };
                    let b = crate::bytes::sub(data.as_slice(), at, at + k);
                    *pos = *pos + k as u64;
                    Got::Bytes(b)
                }
            },
            OpenFile::Dir(DirFile { blob, pos }) => Got::Fail(EISDIR),
            OpenFile::PipeRead(PipeReadEnd(p)) => {
                here = Some(*p);
                Got::Block
            },
            OpenFile::PipeWrite(PipeWriteEnd(p)) => Got::Fail(EBADF),
        };
        let r = match here {
            None => r,
            Some(p) => {
                let len: usize = self.pipes[p].buf.len();
                if len > 0 {
                    let k: usize = if n <= len { n } else { len };
                    let b = crate::bytes::sub(self.pipes[p].buf.as_slice(), 0, k);
                    let rest = crate::bytes::sub(self.pipes[p].buf.as_slice(), k, len);
                    self.pipes[p].buf = rest;
                    self.stir(p);
                    assert(self@ =~= file_read(old(self)@, old(con)@, id as int, n as int).0);
                    Got::Bytes(b)
                } else if self.pipes[p].writers == 0 {
                    let none: Vec<u8> = Vec::new();
                    assert(none@ =~= Seq::<u8>::empty());
                    Got::Bytes(none)
                } else {
                    Got::Block
                }
            },
        };
        r
    }
}

/// An empty pipe with both ends open.
pub open spec fn new_pipe() -> Pv {
    Pv { buf: Seq::empty(), readers: 1, writers: 1, waiters: Seq::empty() }
}

/// A fresh pipe and its two ends behind the table.
pub open spec fn piped(t: Ft) -> Ft {
    Ft {
        files: t.files.push(Fv::PipeRead(t.pipes.len() as int)).push(
            Fv::PipeWrite(t.pipes.len() as int),
        ),
        refs: t.refs.push(1).push(1),
        pipes: t.pipes.push(new_pipe()),
        ..t
    }
}

impl FileTable {
    /// Write `data`, of which the first `done` bytes went in before.
    pub fn write(&mut self, out: &mut Vec<u8>, id: usize, data: &[u8], done: u64) -> (r: Put)
        requires
            old(self).wf(),
            id < old(self)@.files.len(),
            done <= data@.len(),
        ensures
            final(self).wf(),
            (final(self)@, final(out)@, r) == file_write(
                old(self)@,
                old(out)@,
                id as int,
                data@,
                done as int,
            ),
    {
        assert(self@.files[id as int] == self.files@[id as int]@);
        let len: usize = data.len();
        let p: usize = match &self.files[id] {
            OpenFile::Keyboard(_) => { return Put::Done(EBADF); },
            OpenFile::Console(ConsoleFile { writable }) => {
                if *writable {
                    crate::bytes::extend(out, data);
                    return Put::Done(len as i64);
                }
                return Put::Done(EBADF);
            },
            OpenFile::Mem(MemFile { data, pos }) => { return Put::Done(EBADF); },
            OpenFile::Dir(DirFile { blob, pos }) => { return Put::Done(EISDIR); },
            OpenFile::PipeRead(PipeReadEnd(p)) => { return Put::Done(EBADF); },
            OpenFile::PipeWrite(PipeWriteEnd(p)) => *p,
        };
        if done >= len as u64 {
            return Put::Done(len as i64);
        }
        if self.pipes[p].readers == 0 {
            return Put::Done(if done == 0 { EPIPE } else { done as i64 });
        }
        let at: usize = done as usize;
        assert(self.pipes@[p as int].buf@.len() <= PIPE_CAP);
        let space: usize = PIPE_CAP - self.pipes[p].buf.len();
        let k: usize = if space <= len - at { space } else { len - at };
        if k > 0 {
            let piece = crate::bytes::sub(data, at, at + k);
            crate::bytes::extend(&mut self.pipes[p].buf, piece.as_slice());
            self.stir(p);
            proof {
                let t = old(self)@;
                let q = t.pipes[p as int];
                assert(self@ =~= stirred(
                    t,
                    p as int,
                    Pv { buf: q.buf + data@.subrange(done as int, done + k), ..q },
                ));
            }
        }
        if at + k == len {
            Put::Done(len as i64)
        } else {
            Put::Block(done + k as u64)
        }
    }

    /// Move a file's position.
    pub fn seek(&mut self, id: usize, offset: i64, whence: u32) -> (r: i64)
        requires
            old(self).wf(),
            id < old(self)@.files.len(),
        ensures
            final(self).wf(),
            (final(self)@, r) == file_seek(old(self)@, id as int, offset, whence),
    {
        assert(self@.files[id as int] == self.files@[id as int]@);
        match &mut self.files[id] {
            OpenFile::Mem(MemFile { data, pos }) => {
                let len: usize = data.len();
                let base: i128 = if whence == SEEK_SET {
                    0
                } else if whence == SEEK_CUR {
                    *pos as i128
                } else if whence == SEEK_END {
                    len as i128
                } else {
                    return EINVAL;
                };
                let np: i128 = base + offset as i128;
                if np < 0 || np > i64::MAX as i128 {
                    return EINVAL;
                }
                *pos = np as u64;
                np as i64
            },
            OpenFile::Dir(DirFile { blob, pos }) => {
                if whence != SEEK_SET {
                    return EINVAL;
                }
                let np: i64 = if offset < 0 { 0 } else { offset };
                *pos = np as u64;
                np
            },
            _ => ESPIPE,
        }
    }

    /// The mode bits and the size.
    pub fn stat(&self, id: usize) -> (r: (u32, u64))
        requires
            self.wf(),
            id < self@.files.len(),
        ensures
            r == file_stat(self@, id as int),
    {
        assert(self@.files[id as int] == self.files@[id as int]@);
        match &self.files[id] {
            OpenFile::Keyboard(_) => (0o020620, 0),
            OpenFile::Console(ConsoleFile { writable }) => (0o020620, 0),
            OpenFile::Mem(MemFile { data, pos }) => (0o100644, data.len() as u64),
            OpenFile::Dir(DirFile { blob, pos }) => (0o040755, blob.len() as u64),
            OpenFile::PipeRead(PipeReadEnd(p)) => (0o010600, 0),
            OpenFile::PipeWrite(PipeWriteEnd(p)) => (0o010600, 0),
        }
    }

    /// As many whole directory records as fit into `room` bytes.
    pub fn getdents64(&mut self, id: usize, room: usize) -> (r: Got)
        requires
            old(self).wf(),
            id < old(self)@.files.len(),
        ensures
            final(self).wf(),
            (final(self)@, r@) == file_getdents(old(self)@, id as int, room as int),
    {
        assert(self@.files[id as int] == self.files@[id as int]@);
        match &mut self.files[id] {
            OpenFile::Dir(DirFile { blob, pos }) => {
                let n: usize = match fit_records(blob.as_slice(), *pos, room) {
                    Some(n) => n,
                    None => { return Got::Broken; },
                };
                let len: usize = blob.len();
                if n == 0 {
                    if *pos < len as u64 {
                        return Got::Fail(EINVAL);
                    }
                    let none: Vec<u8> = Vec::new();
                    assert(none@ =~= Seq::<u8>::empty());
                    return Got::Bytes(none);
                }
                let at: usize = *pos as usize;
                let b = crate::bytes::sub(blob.as_slice(), at, at + n);
                *pos = *pos + n as u64;
                Got::Bytes(b)
            },
            _ => Got::Fail(ENOTDIR),
        }
    }

    /// One descriptor more names the file.
    pub fn retain(&mut self, id: usize)
        requires
            old(self).wf(),
            id < old(self)@.files.len(),
        ensures
            final(self).wf(),
            final(self)@ == file_retained(old(self)@, id as int),
    {
        let n: u64 = self.refs[id];
        self.refs.set(id, if n == u64::MAX { n } else { n + 1 });
    }

    /// One descriptor less names the file.
    pub fn release(&mut self, id: usize)
        requires
            old(self).wf(),
            id < old(self)@.files.len(),
        ensures
            final(self).wf(),
            final(self)@ == file_released(old(self)@, id as int),
    {
        assert(self@.files[id as int] == self.files@[id as int]@);
        let n: u64 = self.refs[id];
        self.refs.set(id, if n > 0 { n - 1 } else { 0 });
        if n != 1 {
            return ;
        }
        let ghost pipes0 = self.pipes@;
        match &self.files[id] {
            OpenFile::PipeRead(PipeReadEnd(p)) => {
                let p: usize = *p;
                let r: u64 = self.pipes[p].readers;
                self.pipes[p].readers = if r > 0 { r - 1 } else { 0 };
                assert(pipe_views(self.pipes@) =~= pipe_views(pipes0).update(
                    p as int,
                    self.pipes@[p as int]@,
                ));
                self.stir(p);
                assert(self@ =~= file_released(old(self)@, id as int));
            },
            OpenFile::PipeWrite(PipeWriteEnd(p)) => {
                let p: usize = *p;
                let w: u64 = self.pipes[p].writers;
                self.pipes[p].writers = if w > 0 { w - 1 } else { 0 };
                assert(pipe_views(self.pipes@) =~= pipe_views(pipes0).update(
                    p as int,
                    self.pipes@[p as int]@,
                ));
                self.stir(p);
                assert(self@ =~= file_released(old(self)@, id as int));
            },
            _ => {},
        }
    }
}

fn fit_records(blob: &[u8], pos: u64, room: usize) -> (r: Option<usize>)
    ensures
        match records(blob@, pos as int, 0, room as int) {
            Some(n) => r is Some && r->0 == n && (n > 0 ==> pos + n <= blob@.len()),
            None => r is None,
        },
{
    let len: usize = blob.len();
    if pos >= len as u64 {
        return Some(0);
    }
    let at: usize = pos as usize;
    let mut n: usize = 0;
    while at + n < len
        invariant
            len == blob@.len(),
            at == pos,
            n <= room,
            at + n <= len,
            records(blob@, pos as int, 0, room as int) == records(
                blob@,
                pos as int,
                n as int,
                room as int,
            ),
        decreases len - at - n,
    {
        if len - at - n < 18 {
            return None;
        }
        let rl: usize = crate::bytes::load16(blob, at + n + 16) as usize;
        if rl == 0 {
            return None;
        }
        if rl > room - n {
            return Some(n);
        }
        if rl > len - at - n {
            return None;
        }
        n = n + rl;
    }
    Some(n)
}

/// Bytes come out of a pipe in the order they went in: a read after a write
/// gives the front of what was there with the new bytes behind it.
pub proof fn law_pipe_is_fifo(t: Ft, con: Con, out: Seq<u8>, r: int, w: int, data: Seq<u8>, n: int)
    requires
        t.files[r] is PipeRead,
        t.files[w] is PipeWrite,
        t.files[r]->PipeRead_0 == t.files[w]->PipeWrite_0,
        0 <= t.files[r]->PipeRead_0 < t.pipes.len(),
        t.pipes[t.files[r]->PipeRead_0].readers > 0,
        t.pipes[t.files[r]->PipeRead_0].buf.len() + data.len() <= PIPE_CAP,
        data.len() > 0,
        n >= 0,
    ensures
        ({
            let q = t.pipes[t.files[r]->PipeRead_0].buf;
            let (t1, _, put) = file_write(t, out, w, data, 0);
            let (t2, _, got) = file_read(t1, con, r, n);
            let k = least(n, (q.len() + data.len()) as int);
            &&& put == Put::Done(data.len() as i64)
            &&& got == Gotten::Bytes((q + data).take(k))
            &&& t2.pipes[t.files[r]->PipeRead_0].buf == (q + data).skip(k)
        }),
{
    assert(data.subrange(0, data.len() as int) =~= data);
}

/// With the last write end closed an empty pipe reads as end of file; with the
/// last read end closed a write fails.
pub proof fn law_closed_pipe_ends(t: Ft, con: Con, out: Seq<u8>, r: int, w: int, data: Seq<u8>, n: int)
    requires
        0 <= r < t.files.len(),
        0 <= w < t.files.len(),
        t.refs.len() == t.files.len(),
        t.files[r] is PipeRead,
        t.files[w] is PipeWrite,
        t.files[r]->PipeRead_0 == t.files[w]->PipeWrite_0,
        0 <= t.files[r]->PipeRead_0 < t.pipes.len(),
        t.pipes[t.files[r]->PipeRead_0].readers == 1,
        t.pipes[t.files[r]->PipeRead_0].writers == 1,
        t.refs[r] == 1,
        t.refs[w] == 1,
        data.len() > 0,
    ensures
        t.pipes[t.files[r]->PipeRead_0].buf.len() == 0 ==> file_read(
            file_released(t, w),
            con,
            r,
            n,
        ).2 == Gotten::Bytes(Seq::empty()),
        file_write(file_released(t, r), out, w, data, 0).2 == Put::Done(EPIPE),
{
}

/// Nobody is left waiting at a pipe that has changed: what a read took out, a
/// write put in, or the last close of an end made way for, wakes all that wait.
pub proof fn law_pipe_changes_wake_all(
    t: Ft,
    con: Con,
    out: Seq<u8>,
    id: int,
    data: Seq<u8>,
    n: int,
    p: int,
)
    requires
        0 <= id < t.files.len(),
        0 <= p < t.pipes.len(),
        t.pipes[p].buf.len() <= PIPE_CAP,
        n >= 0,
    ensures
        t.files[id] == Fv::PipeRead(p) && t.pipes[p].buf.len() > 0 ==> {
            let u = file_read(t, con, id, n).0;
            u.woken == t.woken + t.pipes[p].waiters && u.pipes[p].waiters.len() == 0
        },
        t.files[id] == Fv::PipeWrite(p) && t.pipes[p].readers != 0 && data.len() > 0
            && t.pipes[p].buf.len() < PIPE_CAP ==> {
            let u = file_write(t, out, id, data, 0).0;
            u.woken == t.woken + t.pipes[p].waiters && u.pipes[p].waiters.len() == 0
        },
        (t.files[id] == Fv::PipeRead(p) || t.files[id] == Fv::PipeWrite(p)) && t.refs[id] == 1 ==> {
            let u = file_released(t, id);
            u.woken == t.woken + t.pipes[p].waiters && u.pipes[p].waiters.len() == 0
        },
{
}

/// A file that is named by another descriptor stays open when one is closed.
pub proof fn law_shared_file_stays_open(t: Ft, id: int)
    requires
        0 <= id < t.refs.len(),
        0 < t.refs[id] < u64::MAX,
    ensures
        file_released(file_retained(t, id), id) == t,
{
    assert(file_released(file_retained(t, id), id).refs =~= t.refs);
}

} // verus!
