//! The Linux calls on files and paths.
use vstd::prelude::*;

use crate::bytes;
use crate::ext2;
use crate::file;
use crate::file::{Ft, Got, Gotten, Put};
use crate::process;
use crate::sys;
use crate::sys::{Caller, Outcome, Read, Step, Sv, Sys, Wrote};
use crate::task;
use crate::task::{Fd, Obj, Task, Tv};

verus! {

pub type Mem = Map<int, u8>;

/// The longest string a call takes from user memory.
pub const STR_MAX: u64 = 4096;

/// The most strings a call takes from one array.
pub const ARRAY_MAX: u64 = 256;

/// The text `String::from_utf8_lossy` makes of `b`.
pub uninterp spec fn lossy(b: Seq<u8>) -> Seq<char>;

/// `String::from_utf8_lossy`: well-formed UTF-8 is the text it encodes; in
/// anything else the malformed parts are replaced.
#[verifier::external_body]
pub(crate) fn lossy_text(b: &[u8]) -> (r: String)
    ensures
        r@ == lossy(b@),
        vstd::utf8::valid_utf8(b@) ==> vstd::utf8::encode_utf8(r@) == b@,
{
    String::from_utf8_lossy(b).into_owned()
}

/// The bytes up to a NUL behind `got`, which were read from `p` on; at most
/// `STR_MAX` in all.
pub open spec fn raw_str(m: Mem, p: int, got: Seq<u8>) -> Option<Seq<u8>>
    decreases STR_MAX - got.len(),
{
    if got.len() >= STR_MAX {
        Some(got)
    } else if !m.contains_key(p + got.len()) {
        None
    } else if m[p + got.len()] == 0 {
        Some(got)
    } else {
        raw_str(m, p, got.push(m[p + got.len()]))
    }
}

/// The text at `p`; nothing where it runs into unmapped memory.
pub open spec fn user_str(m: Mem, p: u64) -> Option<Seq<char>> {
    match raw_str(m, p as int, Seq::empty()) {
        Some(b) => Some(lossy(b)),
        None => None,
    }
}

/// Read a NUL-terminated string from user memory.
pub fn user_cstr(t: &Task, p: u64) -> (r: Option<String>)
    requires
        t.wf(),
    ensures
        match user_str(t@.space.mem, p) {
            Some(s) => r is Some && r->0@ == s,
            None => r is None,
        },
{
    let mut b: Vec<u8> = Vec::new();
    let ghost m = t@.space.mem;
    assert(b@ =~= Seq::empty());
    while (b.len() as u64) < STR_MAX
        invariant
            t.wf(),
            m == t@.space.mem,
            b@.len() <= STR_MAX,
            raw_str(m, p as int, Seq::empty()) == raw_str(m, p as int, b@),
        decreases STR_MAX - b@.len(),
    {
        let i: u64 = b.len() as u64;
        if i > u64::MAX - p {
            proof {
                t.lemma_memory_ends(p + i);
            }
            return None;
        }
        match t.load8(p + i) {
            None => { return None; },
            Some(v) => {
                if v == 0 {
                    let r = lossy_text(b.as_slice());
                    return Some(r);
                }
                b.push(v);
            },
        }
    }
    Some(lossy_text(b.as_slice()))
}

/// The texts that the array of pointers at `p` names, up to a null pointer,
/// behind `got`; at most `ARRAY_MAX` in all.
pub open spec fn str_array(m: Mem, p: int, got: Seq<Seq<char>>) -> Option<Seq<Seq<char>>>
    decreases ARRAY_MAX - got.len(),
{
    if got.len() >= ARRAY_MAX {
        Some(got)
    } else {
        match process::word64(m, p + got.len() * 8) {
            None => None,
            Some(q) => if q == 0 {
                Some(got)
            } else {
                match user_str(m, q) {
                    None => None,
                    Some(s) => str_array(m, p, got.push(s)),
                }
            },
        }
    }
}

pub open spec fn user_strs(m: Mem, p: u64) -> Option<Seq<Seq<char>>> {
    if p == 0 {
        Some(Seq::empty())
    } else {
        str_array(m, p as int, Seq::empty())
    }
}

pub open spec fn string_views(v: Seq<String>) -> Seq<Seq<char>> {
    v.map_values(|s: String| s@)
}

/// Read a null-terminated array of user strings.
pub fn user_cstr_array(t: &Task, p: u64) -> (r: Option<Vec<String>>)
    requires
        t.wf(),
    ensures
        match user_strs(t@.space.mem, p) {
            Some(s) => r is Some && string_views(r->0@) == s,
            None => r is None,
        },
{
    let mut v: Vec<String> = Vec::new();
    assert(string_views(v@) =~= Seq::empty());
    if p == 0 {
        return Some(v);
    }
    let ghost m = t@.space.mem;
    while (v.len() as u64) < ARRAY_MAX
        invariant
            t.wf(),
            p != 0,
            m == t@.space.mem,
            v@.len() <= ARRAY_MAX,
            str_array(m, p as int, Seq::empty()) == str_array(m, p as int, string_views(v@)),
        decreases ARRAY_MAX - v@.len(),
    {
        let i: u64 = v.len() as u64;
        let q: u64 = match t.load64(p, i * 8) {
            Some(q) => q,
            None => { return None; },
        };
        if q == 0 {
            return Some(v);
        }
        match user_cstr(t, q) {
            None => { return None; },
            Some(s) => {
                let ghost before = v@;
                v.push(s);
                assert(string_views(v@) =~= string_views(before).push(s@));
            },
        }
    }
    Some(v)
}

/// The absolute path that the user string at `p` names.
pub open spec fn user_path(t: Tv, p: u64) -> Option<Seq<char>> {
    match user_str(t.space.mem, p) {
        Some(s) => Some(task::resolved(t.cwd, s)),
        None => None,
    }
}

pub fn resolve_user_path(t: &Task, p: u64) -> (r: Option<Vec<char>>)
    requires
        t.wf(),
    ensures
        match user_path(t@, p) {
            Some(s) => r is Some && r->0@ == s,
            None => r is None,
        },
{
    match user_cstr(t, p) {
        None => None,
        Some(s) => {
            let c = crate::text::chars_of(s.as_str());
            let cwd = t.cwd();
            Some(crate::task::resolve_path(cwd.as_slice(), c.as_slice()))
        },
    }
}

// --- reading and writing ---

/// `write(fd, buf, len)`.
pub open spec fn write_call(c: Caller, t: Tv, s: Sv, fd: u64, buf: u64, len: u64, done: u64) -> Step {
    match sys::written(t, s, fd as i32, buf, len, done) {
        None => None,
        Some((s2, Wrote::NoFile)) => sys::back(c, t, s2, file::EBADF),
        Some((s2, Wrote::Done(n))) => sys::back(c, t, s2, n),
        Some((s2, Wrote::Block(id, d))) => Some((c, t, s2, Outcome::Block { file: id, done: d })),
    }
}

pub fn sys_write(c: &Caller, t: &Task, s: &mut Sys, fd: u64, buf: u64, len: u64, done: u64) -> (r:
    Outcome)
    requires
        t.wf(),
        old(s).wf(),
    ensures
        final(s).wf(),
        sys::meets(write_call(*c, t@, old(s)@, fd, buf, len, done), *c, t@, final(s)@, r),
{
    match crate::sys::write(t, s, fd as i32, buf, len, done) {
        None => Outcome::Fault,
        Some(Wrote::NoFile) => Outcome::Return(crate::file::EBADF),
        Some(Wrote::Done(n)) => Outcome::Return(n),
        Some(Wrote::Block(id, d)) => Outcome::Block { file: id, done: d },
    }
}

/// `read(fd, buf, len)`.
pub open spec fn read_call(c: Caller, t: Tv, s: Sv, fd: u64, buf: u64, len: u64) -> Step {
    match sys::readed(t, s, fd as i32, buf, len) {
        None => None,
        Some((t2, s2, Read::NoFile)) => sys::back(c, t2, s2, file::EBADF),
        Some((t2, s2, Read::Done(n))) => sys::back(c, t2, s2, n),
        Some((t2, s2, Read::Block(id))) => Some((c, t2, s2, Outcome::Block { file: id, done: 0 })),
    }
}

pub fn sys_read(c: &Caller, t: &mut Task, s: &mut Sys, fd: u64, buf: u64, len: u64) -> (r: Outcome)
    requires
        old(t).wf(),
        old(s).wf(),
    ensures
        final(t).wf(),
        final(t).pml4() == old(t).pml4(),
        final(s).wf(),
        sys::meets(read_call(*c, old(t)@, old(s)@, fd, buf, len), *c, final(t)@, final(s)@, r),
{
    match crate::sys::read(t, s, fd as i32, buf, len) {
        None => Outcome::Fault,
        Some(Read::NoFile) => Outcome::Return(crate::file::EBADF),
        Some(Read::Done(n)) => Outcome::Return(n),
        Some(Read::Block(id)) => Outcome::Block { file: id, done: 0 },
    }
}

/// `writev` from entry `i` on: `total` bytes are written, and of what follows
/// `skip` bytes were written before the call had to wait. An error counts only
/// where nothing was written before it.
pub open spec fn writev_from(
    c: Caller,
    t: Tv,
    s: Sv,
    fd: u64,
    iov: u64,
    n: u64,
    i: u64,
    total: u64,
    skip: u64,
) -> Step
    decreases n - i,
{
    if i >= n {
        sys::back(c, t, s, total as i64)
    } else {
        match (
            process::word64(t.space.mem, iov + i * 16),
            process::word64(t.space.mem, iov + (i * 16 + 8)),
        ) {
            (Some(base), Some(len)) => if 0 < skip && len <= skip {
                writev_from(
                    c,
                    t,
                    s,
                    fd,
                    iov,
                    n,
                    (i + 1) as u64,
                    total.wrapping_add(len),
                    (skip - len) as u64,
                )
            } else {
                match write_call(c, t, s, fd, base, len, skip) {
                    Some((_, _, s2, Outcome::Return(r))) => if r < 0 {
                        sys::back(
                            c,
                            t,
                            s2,
                            if total == 0 {
                                r
                            } else {
                                total as i64
                            },
                        )
                    } else {
                        writev_from(
                            c,
                            t,
                            s2,
                            fd,
                            iov,
                            n,
                            (i + 1) as u64,
                            total.wrapping_add(r as u64),
                            0,
                        )
                    },
                    Some((_, _, s2, Outcome::Block { file, done })) => Some(
                        (c, t, s2, Outcome::Block { file, done: total.wrapping_add(done) }),
                    ),
                    w => w,
                }
            },
            _ => None,
        }
    }
}

pub fn sys_writev(c: &Caller, t: &Task, s: &mut Sys, fd: u64, iov: u64, n: u64, done: u64) -> (r:
    Outcome)
    requires
        t.wf(),
        old(s).wf(),
    ensures
        final(s).wf(),
        sys::meets(
            writev_from(*c, t@, old(s)@, fd, iov, n, 0, 0, done),
            *c,
            t@,
            final(s)@,
            r,
        ),
{
    let mut total: u64 = 0;
    let mut skip: u64 = done;
    let mut i: u64 = 0;
    let ghost want = writev_from(*c, t@, s@, fd, iov, n, 0, 0, done);
    while i < n
        invariant
            i <= n,
            t.wf(),
            s.wf(),
            want == writev_from(*c, t@, s@, fd, iov, n, i, total, skip),
            want == writev_from(*c, t@, old(s)@, fd, iov, n, 0, 0, done),
        decreases n - i,
    {
        if i > (u64::MAX - 8) / 16 {
            proof {
                t.lemma_memory_ends(iov + i * 16);
            }
            return Outcome::Fault;
        }
        let (base, len) = match (t.load64(iov, i * 16), t.load64(iov, i * 16 + 8)) {
            (Some(a), Some(b)) => (a, b),
            _ => { return Outcome::Fault; },
        };
        if 0 < skip && len <= skip {
            total = total.wrapping_add(len);
            skip = skip - len;
        } else {
            match sys_write(c, t, s, fd, base, len, skip) {
                Outcome::Return(r) => {
                    if r < 0 {
                        return Outcome::Return(if total == 0 { r } else { total as i64 });
                    }
                    total = total.wrapping_add(r as u64);
                    skip = 0;
                },
                Outcome::Block { file, done } => {
                    return Outcome::Block { file, done: total.wrapping_add(done) };
                },
                o => { return o; },
            }
        }
        i = i + 1;
    }
    Outcome::Return(total as i64)
}

/// `lseek(fd, offset, whence)`.
pub open spec fn seek_call(c: Caller, t: Tv, s: Sv, fd: u64, off: u64, whence: u64) -> Step {
    match sys::file_of(t, s, fd as i32) {
        None => sys::back(c, t, s, file::EBADF),
        Some(id) => {
            let (files, r) = file::file_seek(s.files, id, off as i64, whence as u32);
            sys::back(c, t, Sv { files, ..s }, r)
        },
    }
}

pub fn sys_lseek(c: &Caller, t: &Task, s: &mut Sys, fd: u64, off: u64, whence: u64) -> (r: Outcome)
    requires
        t.wf(),
        old(s).wf(),
    ensures
        final(s).wf(),
        sys::meets(seek_call(*c, t@, old(s)@, fd, off, whence), *c, t@, final(s)@, r),
{
    match crate::sys::find_file(t, s, fd as i32) {
        None => Outcome::Return(crate::file::EBADF),
        Some(id) => Outcome::Return(s.files.seek(id, off as i64, whence as u32)),
    }
}

/// `getdents64(fd, buf, len)`.
pub open spec fn getdents_call(c: Caller, t: Tv, s: Sv, fd: u64, buf: u64, len: u64) -> Step {
    match sys::file_of(t, s, fd as i32) {
        None => sys::back(c, t, s, file::EBADF),
        Some(id) => if len > usize::MAX {
            None
        } else {
            let (files, got) = file::file_getdents(s.files, id, len as int);
            match sys::delivered(t, Sv { files, ..s }, id, buf, got) {
                Some((t2, s2, Read::Done(n))) => sys::back(c, t2, s2, n),
                _ => None,
            }
        },
    }
}

pub fn sys_getdents64(c: &Caller, t: &mut Task, s: &mut Sys, fd: u64, buf: u64, len: u64) -> (r:
    Outcome)
    requires
        old(t).wf(),
        old(s).wf(),
    ensures
        final(t).wf(),
        final(t).pml4() == old(t).pml4(),
        final(s).wf(),
        sys::meets(getdents_call(*c, old(t)@, old(s)@, fd, buf, len), *c, final(t)@, final(s)@, r),
{
    let id: usize = match crate::sys::find_file(t, s, fd as i32) {
        Some(i) => i,
        None => { return Outcome::Return(crate::file::EBADF); },
    };
    if len > usize::MAX as u64 {
        return Outcome::Fault;
    }
    match s.files.getdents64(id, len as usize) {
        Got::Bytes(b) => if t.store_bytes(buf, b.as_slice()) {
            Outcome::Return(b.len() as i64)
        } else {
            Outcome::Fault
        },
        Got::Fail(e) => Outcome::Return(e),
        _ => Outcome::Fault,
    }
}

// --- opening and naming ---

/// `open(path)`: a file for reading, or a directory as a stream of records.
pub open spec fn open_call(c: Caller, t: Tv, s: Sv, p: u64) -> Step {
    match user_path(t, p) {
        None => None,
        Some(path) => sys::path_opened(c, t, s, path),
    }
}

pub fn sys_open(c: &Caller, t: &mut Task, s: &mut Sys, p: u64) -> (r: Outcome)
    requires
        old(t).wf(),
        old(s).wf(),
    ensures
        final(t).wf(),
        final(t).pml4() == old(t).pml4(),
        final(s).wf(),
        sys::meets(open_call(*c, old(t)@, old(s)@, p), *c, final(t)@, final(s)@, r),
{
    match resolve_user_path(t, p) {
        None => Outcome::Fault,
        Some(path) => crate::sys::open_resolved(c, t, s, path.as_slice()),
    }
}

/// `pipe(fds)`: two descriptors on a fresh pipe, read end first. An end that
/// finds no free descriptor is closed at once.
pub open spec fn pipe_call(c: Caller, t: Tv, s: Sv, at: u64, flags: u64) -> Step {
    let cloexec = flags & 0o2000000 != 0;
    let id = s.files.files.len() as int;
    let f0 = file::piped(s.files);
    let (fds1, r) = task::fd_put(t.fds, Fd { obj: Obj::File(id), cloexec });
    let f1 = if r < 0 {
        file::file_released(f0, id)
    } else {
        f0
    };
    let (fds2, w) = task::fd_put(fds1, Fd { obj: Obj::File(id + 1), cloexec });
    let f2 = if w < 0 {
        file::file_released(f1, id + 1)
    } else {
        f1
    };
    match task::poked(
        Tv { fds: fds2, ..t },
        at as int,
        bytes::bytes32((r as i32) as u32) + bytes::bytes32((w as i32) as u32),
    ) {
        Some(t2) => sys::back(c, t2, Sv { files: f2, ..s }, 0),
        None => None,
    }
}

pub fn sys_pipe(c: &Caller, t: &mut Task, s: &mut Sys, at: u64, flags: u64) -> (r: Outcome)
    requires
        old(t).wf(),
        old(s).wf(),
    ensures
        final(t).wf(),
        final(t).pml4() == old(t).pml4(),
        final(s).wf(),
        sys::meets(pipe_call(*c, old(t)@, old(s)@, at, flags), *c, final(t)@, final(s)@, r),
{
    let cloexec: bool = flags & 0o2000000 != 0;
    let (rid, wid) = s.files.pipe();
    let r: i32 = t.fd_alloc_flags(rid, cloexec);
    if r < 0 {
        s.files.release(rid);
    }
    let w: i32 = t.fd_alloc_flags(wid, cloexec);
    if w < 0 {
        s.files.release(wid);
    }
    let mut b = crate::bytes::to_bytes32(r as u32);
    let b2 = crate::bytes::to_bytes32(w as u32);
    crate::bytes::extend(&mut b, b2.as_slice());
    if t.store(at, 0, b.as_slice()) {
        Outcome::Return(0)
    } else {
        Outcome::Fault
    }
}

/// The error of a removal, by what the file system said.
pub open spec fn unlink_errno(e: Seq<char>) -> i64 {
    if e == "no such file"@ || e == "no such directory"@ || e == "parent dir missing"@ {
        sys::ENOENT
    } else if e == "is a directory"@ {
        file::EISDIR
    } else if e == "not a directory"@ {
        file::ENOTDIR
    } else if e == "directory not empty"@ {
        sys::ENOTEMPTY
    } else {
        file::EINVAL
    }
}

fn text_is(e: &str, w: &str) -> (r: bool)
    ensures
        r == (e@ == w@),
{
    let a = crate::text::chars_of(e);
    let b = crate::text::chars_of(w);
    crate::text::same_chars(a.as_slice(), b.as_slice())
}

/// What `unlink` and `rmdir` return for what the file system said.
pub fn unlink_result(r: Result<(), &str>) -> (v: i64)
    ensures
        v == match r {
            Ok(()) => 0i64,
            Err(e) => unlink_errno(e@),
        },
{
    match r {
        Ok(()) => 0,
        Err(e) => if text_is(e, "no such file") || text_is(e, "no such directory") || text_is(
            e,
            "parent dir missing",
        ) {
            sys::ENOENT
        } else if text_is(e, "is a directory") {
            crate::file::EISDIR
        } else if text_is(e, "not a directory") {
            crate::file::ENOTDIR
        } else if text_is(e, "directory not empty") {
            sys::ENOTEMPTY
        } else {
            crate::file::EINVAL
        },
    }
}

// --- status ---

/// A `struct stat`: one link, the mode, the size, and the size in blocks.
pub open spec fn stat_block(mode: u32, size: u64) -> Seq<u8> {
    let b = bytes::zeros(144);
    let b = bytes::splice(b, 16, bytes::bytes64(1));
    let b = bytes::splice(b, 24, bytes::bytes32(mode));
    let b = bytes::splice(b, 48, bytes::bytes64(size));
    let b = bytes::splice(b, 56, bytes::bytes64(4096));
    bytes::splice(b, 64, bytes::bytes64((size.wrapping_add(511) / 512) as u64))
}

pub open spec fn stat_stored(c: Caller, t: Tv, s: Sv, buf: u64, mode: u32, size: u64) -> Step {
    match task::poked(t, buf as int, stat_block(mode, size)) {
        Some(t2) => sys::back(c, t2, s, 0),
        None => None,
    }
}

fn store_stat(t: &mut Task, buf: u64, mode: u32, size: u64) -> (ok: bool)
    requires
        old(t).wf(),
    ensures
        final(t).wf(),
        final(t).pml4() == old(t).pml4(),
        match task::poked(old(t)@, buf as int, stat_block(mode, size)) {
            Some(t2) => ok && final(t)@ == t2,
            None => !ok,
        },
{
    let mut b = crate::bytes::zeroed(144);
    crate::bytes::put64(&mut b, 16, 1);
    crate::bytes::put32(&mut b, 24, mode);
    crate::bytes::put64(&mut b, 48, size);
    crate::bytes::put64(&mut b, 56, 4096);
    crate::bytes::put64(&mut b, 64, size.wrapping_add(511) / 512);
    t.store(buf, 0, b.as_slice())
}

/// `fstat(fd, buf)`.
pub open spec fn fstat_call(c: Caller, t: Tv, s: Sv, fd: u64, buf: u64) -> Step {
    match sys::file_of(t, s, fd as i32) {
        None => sys::back(c, t, s, file::EBADF),
        Some(id) => {
            let (mode, size) = file::file_stat(s.files, id);
            stat_stored(c, t, s, buf, mode, size)
        },
    }
}

pub fn sys_fstat(c: &Caller, t: &mut Task, s: &Sys, fd: u64, buf: u64) -> (r: Outcome)
    requires
        old(t).wf(),
        s.wf(),
    ensures
        final(t).wf(),
        final(t).pml4() == old(t).pml4(),
        sys::meets(fstat_call(*c, old(t)@, s@, fd, buf), *c, final(t)@, s@, r),
{
    let id: usize = match crate::sys::find_file(t, s, fd as i32) {
        Some(i) => i,
        None => { return Outcome::Return(crate::file::EBADF); },
    };
    let (mode, size) = s.files.stat(id);
    if store_stat(t, buf, mode, size) {
        Outcome::Return(0)
    } else {
        Outcome::Fault
    }
}

/// The mode and size of what an absolute path names: an outcome where there is
/// none.
pub open spec fn path_stat(disk: Seq<u8>, path: Seq<char>) -> Result<Option<(u16, u64)>, &'static str> {
    match ext2::opened(disk) {
        Err(_) => Ok(None),
        Ok(fs) => match ext2::path_ino(disk, fs, vstd::utf8::encode_utf8(path)) {
            Err(e) => Err(e),
            Ok(None) => Ok(None),
            Ok(Some(ino)) => match ext2::inode_at(disk, fs, ino) {
                Err(e) => Err(e),
                Ok((mode, size, _)) => Ok(Some((mode, size))),
            },
        },
    }
}

fn stat_path(disk: &[u8], path: &[char]) -> (r: Result<Option<(u16, u64)>, &'static str>)
    ensures
        r == path_stat(disk@, path@),
{
    let fs = match crate::ext2::open(disk) {
        Ok(fs) => fs,
        Err(_) => { return Ok(None); },
    };
    let p = crate::text::string_of(path);
    let ino: u32 = match fs.path_lookup(disk, p.as_str()) {
        Err(e) => { return Err(e); },
        Ok(None) => { return Ok(None); },
        Ok(Some(i)) => i,
    };
    match fs.read_inode(disk, ino) {
        Ok(n) => Ok(Some((n.mode, n.size))),
        Err(e) => Err(e),
    }
}

/// `newfstatat(dirfd, path, buf, flags)`: an empty path may stand for the
/// descriptor itself.
pub open spec fn fstatat_call(c: Caller, t: Tv, s: Sv, dirfd: u64, p: u64, buf: u64, flags: u64) -> Step {
    match user_str(t.space.mem, p) {
        None => None,
        Some(name) => if name.len() == 0 && flags & 0x1000 != 0 {
            fstat_call(c, t, s, dirfd, buf)
        } else if ext2::opened(s.disk) is Err {
            sys::back(c, t, s, sys::EIO)
        } else {
            match path_stat(s.disk, task::resolved(t.cwd, name)) {
                Err(e) => Some((c, t, s, Outcome::Panic(e))),
                Ok(None) => sys::back(c, t, s, sys::ENOENT),
                Ok(Some((mode, size))) => stat_stored(c, t, s, buf, mode as u32, size),
            }
        },
    }
}

pub fn sys_newfstatat(c: &Caller, t: &mut Task, s: &Sys, dirfd: u64, p: u64, buf: u64, flags: u64) -> (r:
    Outcome)
    requires
        old(t).wf(),
        s.wf(),
    ensures
        final(t).wf(),
        final(t).pml4() == old(t).pml4(),
        sys::meets(fstatat_call(*c, old(t)@, s@, dirfd, p, buf, flags), *c, final(t)@, s@, r),
{
    let name = match user_cstr(t, p) {
        Some(n) => crate::text::chars_of(n.as_str()),
        None => { return Outcome::Fault; },
    };
    if name.len() == 0 && flags & 0x1000 != 0 {
        return sys_fstat(c, t, s, dirfd, buf);
    }
    let cwd = t.cwd();
    let path = crate::task::resolve_path(cwd.as_slice(), name.as_slice());
    match crate::ext2::open(s.disk.as_slice()) {
        Ok(_) => {},
        Err(_) => { return Outcome::Return(sys::EIO); },
    }
    match stat_path(s.disk.as_slice(), path.as_slice()) {
        Err(e) => Outcome::Panic(e),
        Ok(None) => Outcome::Return(sys::ENOENT),
        Ok(Some((mode, size))) => if store_stat(t, buf, mode as u32, size) {
            Outcome::Return(0)
        } else {
            Outcome::Fault
        },
    }
}

/// `chdir(path)`: the path has to name a directory.
pub open spec fn chdir_call(c: Caller, t: Tv, s: Sv, p: u64) -> Step {
    match user_path(t, p) {
        None => None,
        Some(path) => match path_stat(s.disk, path) {
            Err(e) => Some((c, t, s, Outcome::Panic(e))),
            Ok(None) => sys::back(c, t, s, sys::ENOENT),
            Ok(Some((mode, _))) => if mode & 0xF000 == 0x4000 {
                sys::back(c, Tv { cwd: path, ..t }, s, 0)
            } else {
                sys::back(c, t, s, file::ENOTDIR)
            },
        },
    }
}

pub fn sys_chdir(c: &Caller, t: &mut Task, s: &Sys, p: u64) -> (r: Outcome)
    requires
        old(t).wf(),
        s.wf(),
    ensures
        final(t).wf(),
        final(t).pml4() == old(t).pml4(),
        sys::meets(chdir_call(*c, old(t)@, s@, p), *c, final(t)@, s@, r),
{
    let path = match resolve_user_path(t, p) {
        Some(p) => p,
        None => { return Outcome::Fault; },
    };
    match stat_path(s.disk.as_slice(), path.as_slice()) {
        Err(e) => Outcome::Panic(e),
        Ok(None) => Outcome::Return(sys::ENOENT),
        Ok(Some((mode, _))) => if mode & 0xF000 == 0x4000 {
            t.set_cwd(path);
            Outcome::Return(0)
        } else {
            Outcome::Return(crate::file::ENOTDIR)
        },
    }
}

/// `getcwd(buf, size)`: the path and a NUL; the length counts the NUL.
pub open spec fn getcwd_call(c: Caller, t: Tv, s: Sv, buf: u64, size: u64) -> Step {
    let b = vstd::utf8::encode_utf8(t.cwd).push(0);
    if buf == 0 || size < b.len() {
        sys::back(c, t, s, sys::ERANGE)
    } else {
        match task::poked(t, buf as int, b) {
            Some(t2) => sys::back(c, t2, s, b.len() as i64),
            None => None,
        }
    }
}

pub fn sys_getcwd(c: &Caller, t: &mut Task, s: &Sys, buf: u64, size: u64) -> (r: Outcome)
    requires
        old(t).wf(),
        s.wf(),
    ensures
        final(t).wf(),
        final(t).pml4() == old(t).pml4(),
        sys::meets(getcwd_call(*c, old(t)@, s@, buf, size), *c, final(t)@, s@, r),
{
    let cwd = t.cwd();
    let text = crate::text::string_of(cwd.as_slice());
    let utf8 = text.as_str().as_bytes();
    let mut b = crate::bytes::sub(utf8, 0, utf8.len());
    assert(b@ =~= vstd::utf8::encode_utf8(t@.cwd));
    b.push(0);
    let need: usize = b.len();
    if buf == 0 || size < need as u64 {
        return Outcome::Return(sys::ERANGE);
    }
    if t.store(buf, 0, b.as_slice()) {
        Outcome::Return(need as i64)
    } else {
        Outcome::Fault
    }
}

/// After a `chdir` that succeeded, `getcwd` gives the directory it named,
/// whatever the task's files and memory are.
pub proof fn law_getcwd_follows_chdir(c: Caller, t: Tv, s: Sv, p: u64, buf: u64, size: u64)
    requires
        user_path(t, p) is Some,
        path_stat(s.disk, user_path(t, p)->0) matches Ok(Some((mode, _))) && mode & 0xF000
            == 0x4000,
        buf != 0,
        size > vstd::utf8::encode_utf8(user_path(t, p)->0).len(),
        process::mapped(
            t.space.mem,
            buf as int,
            vstd::utf8::encode_utf8(user_path(t, p)->0).len() + 1int,
        ),
    ensures
        ({
            let path = user_path(t, p)->0;
            let b = vstd::utf8::encode_utf8(path).push(0);
            &&& chdir_call(c, t, s, p) matches Some((_, t2, s2, o))
            &&& o == Outcome::Return(0)
            &&& getcwd_call(c, t2, s2, buf, size) matches Some((_, t3, _, o2))
            &&& o2 == Outcome::Return(b.len() as i64)
            &&& process::peek(t3.space.mem, buf as int, b.len()) == b
            &&& t3.cwd == path
        }),
{
    let path = user_path(t, p)->0;
    let b = vstd::utf8::encode_utf8(path).push(0);
    process::law_stored_bytes_read_back(t.space.mem, buf as int, b);
}


// --- the terminal ---

/// The terminal settings: canonical input, and no echo of its own.
pub open spec fn termios() -> Seq<u8> {
    let b = bytes::zeros(36);
    let b = bytes::splice(b, 0, bytes::bytes32(0x0100));
    let b = bytes::splice(b, 4, bytes::bytes32(0x0005));
    let b = bytes::splice(b, 8, bytes::bytes32(0x00bf));
    let b = bytes::splice(b, 12, bytes::bytes32(0x0003));
    bytes::splice(b, 17, seq![3u8, 28, 0x7f, 21, 4, 0, 1])
}

/// 25 rows of 80 columns.
pub open spec fn winsize() -> Seq<u8> {
    bytes::bytes16(25) + bytes::bytes16(80) + bytes::bytes16(0) + bytes::bytes16(0)
}

/// `ioctl(fd, cmd, arg)`: what a terminal answers.
pub open spec fn ioctl_call(c: Caller, t: Tv, s: Sv, fd: u64, cmd: u64, arg: u64) -> Step {
    if sys::file_of(t, s, fd as i32) is None {
        sys::back(c, t, s, file::EBADF)
    } else if cmd == 0x5402 || cmd == 0x5403 || cmd == 0x5404 || cmd == 0x5410 {
        sys::back(c, t, s, 0)
    } else if cmd == 0x5401 || cmd == 0x5413 || cmd == 0x540f {
        match task::poked(
            t,
            arg as int,
            if cmd == 0x5401 {
                termios()
            } else if cmd == 0x5413 {
                winsize()
            } else {
                bytes::bytes32(t.pid as u32)
            },
        ) {
            Some(t2) => sys::back(c, t2, s, 0),
            None => None,
        }
    } else {
        sys::back(c, t, s, sys::ENOTTY)
    }
}

pub fn sys_ioctl(c: &Caller, t: &mut Task, s: &Sys, fd: u64, cmd: u64, arg: u64) -> (r: Outcome)
    requires
        old(t).wf(),
        s.wf(),
    ensures
        final(t).wf(),
        final(t).pml4() == old(t).pml4(),
        sys::meets(ioctl_call(*c, old(t)@, s@, fd, cmd, arg), *c, final(t)@, s@, r),
{
    if crate::sys::find_file(t, s, fd as i32).is_none() {
        return Outcome::Return(crate::file::EBADF);
    }
    if cmd == 0x5402 || cmd == 0x5403 || cmd == 0x5404 || cmd == 0x5410 {
        return Outcome::Return(0);
    }
    let b: Vec<u8> = if cmd == 0x5401 {
        let mut b = crate::bytes::zeroed(36);
        crate::bytes::put32(&mut b, 0, 0x0100);
        crate::bytes::put32(&mut b, 4, 0x0005);
        crate::bytes::put32(&mut b, 8, 0x00bf);
        crate::bytes::put32(&mut b, 12, 0x0003);
        let cc: Vec<u8> = vec![3, 28, 0x7f, 21, 4, 0, 1];
        assert(cc@ =~= seq![3u8, 28, 0x7f, 21, 4, 0, 1]);
        crate::bytes::put(&mut b, 17, cc.as_slice());
        b
    } else if cmd == 0x5413 {
        let mut b = crate::bytes::to_bytes16(25);
        let w = crate::bytes::to_bytes16(80);
        crate::bytes::extend(&mut b, w.as_slice());
        let z = crate::bytes::to_bytes16(0);
        crate::bytes::extend(&mut b, z.as_slice());
        crate::bytes::extend(&mut b, z.as_slice());
        b
    } else if cmd == 0x540f {
        crate::bytes::to_bytes32(t.pid() as u32)
    } else {
        return Outcome::Return(sys::ENOTTY);
    };
    if t.store(arg, 0, b.as_slice()) {
        Outcome::Return(0)
    } else {
        Outcome::Fault
    }
}

// --- sendfile ---

/// How far a call that has to wait has come: the bytes of the current write
/// that are done, what a copy has moved before it, and the bytes it took and
/// has not passed on whole.
pub struct Progress {
    pub done: u64,
    pub total: u64,
    pub chunk: Vec<u8>,
    /// The path of a removal.
    pub path: Vec<char>,
}

#[verifier::ext_equal]
pub struct Pg {
    pub done: u64,
    pub total: u64,
    pub chunk: Seq<u8>,
    pub path: Seq<char>,
}

impl View for Progress {
    type V = Pg;

    open spec fn view(&self) -> Pg {
        Pg { done: self.done, total: self.total, chunk: self.chunk@, path: self.path@ }
    }
}

/// Nothing done yet.
pub open spec fn fresh() -> Pg {
    Pg { done: 0, total: 0, chunk: Seq::empty(), path: Seq::empty() }
}

impl Progress {
    pub fn new() -> (r: Progress)
        ensures
            r@ == fresh(),
    {
        let r = Progress { done: 0, total: 0, chunk: Vec::new(), path: Vec::new() };
        assert(r@ =~= fresh());
        r
    }
}

/// A copy ended with `total` bytes moved, or with an error.
pub enum Sent {
    Total(u64),
    Error(i64),
    /// The copy waits on this file.
    Wait(usize, Pg),
}

/// The chunk written from byte `done` on, and then the rest of the copy.
pub open spec fn chunk_sent(s: Sv, src: int, dst: int, count: u64, p: Pg) -> Option<(Sv, Sent)>
    decreases count - p.total, 0int,
{
    let (files, out, put) = file::file_write(s.files, s.out, dst, p.chunk, p.done as int);
    let s2 = Sv { files, out, ..s };
    match put {
        Put::Block(d) => Some((s2, Sent::Wait(dst as usize, Pg { done: d, ..p }))),
        Put::Done(w) => if w < 0 {
            Some(
                (
                    s2,
                    if p.total == 0 {
                        Sent::Error(w)
                    } else {
                        Sent::Total(p.total)
                    },
                ),
            )
        } else if w < p.chunk.len() || p.total + w > count || w == 0 {
            Some((s2, Sent::Total(p.total.wrapping_add(w as u64))))
        } else {
            copied(s2, src, dst, count, (p.total + w) as u64)
        },
    }
}

/// The copy from `total` bytes on, a page at a time: it ends with the source,
/// or with a short or failed write.
pub open spec fn copied(s: Sv, src: int, dst: int, count: u64, total: u64) -> Option<(Sv, Sent)>
    decreases count - total, 1int,
{
    if total >= count {
        Some((s, Sent::Total(total)))
    } else {
        let want = file::least(count - total, 4096);
        let (files, con, got) = file::file_read(s.files, s.con, src, want);
        let s2 = Sv { files, con, ..s };
        match got {
            Gotten::Block => Some((s2, Sent::Wait(src as usize, Pg { total, ..fresh() }))),
            Gotten::Broken => None,
            Gotten::Fail(e) => Some(
                (
                    s2,
                    if total == 0 {
                        Sent::Error(e)
                    } else {
                        Sent::Total(total)
                    },
                ),
            ),
            Gotten::Bytes(b) => if b.len() == 0 {
                Some((s2, Sent::Total(total)))
            } else {
                chunk_sent(s2, src, dst, count, Pg { total, chunk: b, ..fresh() })
            },
        }
    }
}

/// A copy, begun or taken up again.
pub open spec fn started(s: Sv, src: int, dst: int, count: u64, p: Pg) -> Option<(Sv, Sent)> {
    if p.chunk.len() > 0 {
        chunk_sent(s, src, dst, count, p)
    } else {
        copied(s, src, dst, count, p.total)
    }
}

/// How a copy ended.
enum Moved {
    Total(u64),
    Error(i64),
    Wait(usize),
}

fn copy_files(s: &mut Sys, src: usize, dst: usize, count: u64, p: &mut Progress) -> (r: Option<Moved>)
    requires
        old(s).wf(),
        src < old(s)@.files.files.len(),
        dst < old(s)@.files.files.len(),
        old(p)@.done <= old(p)@.chunk.len(),
        old(p)@.path.len() == 0,
    ensures
        final(s).wf(),
        final(s)@.files.files.len() == old(s)@.files.files.len(),
        match started(old(s)@, src as int, dst as int, count, old(p)@) {
            None => r is None,
            Some((s2, Sent::Total(n))) => r == Some(Moved::Total(n)) && final(s)@ == s2,
            Some((s2, Sent::Error(e))) => r == Some(Moved::Error(e)) && final(s)@ == s2,
            Some((s2, Sent::Wait(id, pg))) => r == Some(Moved::Wait(id)) && final(s)@ == s2
                && final(p)@ == pg,
        },
{
    let ghost want = started(s@, src as int, dst as int, count, p@);
    loop
        invariant
            s.wf(),
            s@.files.files.len() == old(s)@.files.files.len(),
            src < s@.files.files.len(),
            dst < s@.files.files.len(),
            p@.done <= p@.chunk.len(),
            p@.path.len() == 0,
            want == started(old(s)@, src as int, dst as int, count, old(p)@),
            want == started(s@, src as int, dst as int, count, p@),
        decreases
                if count > p.total {
                    count - p.total
                } else {
                    0
                },
                if p.chunk@.len() > 0 {
                    0int
                } else {
                    1
                },
    {
        let ghost s0 = s@;
        let ghost p0 = p@;
        if p.chunk.len() == 0 {
            if p.total >= count {
                return Some(Moved::Total(p.total));
            }
            let left: u64 = count - p.total;
            let n: usize = if left < 4096 { left as usize } else { 4096 };
            match s.files.read(&mut s.con, src, n) {
                Got::Block => {
                    p.done = 0;
                    assert(p@ =~= (Pg { total: p0.total, ..fresh() }));
                    return Some(Moved::Wait(src));
                },
                Got::Broken => { return None; },
                Got::Fail(e) => {
                    return Some(
                        if p.total == 0 {
                            Moved::Error(e)
                        } else {
                            Moved::Total(p.total)
                        },
                    );
                },
                Got::Bytes(b) => {
                    if b.len() == 0 {
                        return Some(Moved::Total(p.total));
                    }
                    p.chunk = b;
                    p.done = 0;
                    assert(p@ =~= (Pg { total: p0.total, chunk: b@, ..fresh() }));
                },
            }
        } else {
            let len: usize = p.chunk.len();
            match s.files.write(&mut s.out, dst, p.chunk.as_slice(), p.done) {
                Put::Block(d) => {
                    p.done = d;
                    return Some(Moved::Wait(dst));
                },
                Put::Done(w) => {
                    if w < 0 {
                        return Some(
                            if p.total == 0 {
                                Moved::Error(w)
                            } else {
                                Moved::Total(p.total)
                            },
                        );
                    }
                    let w: u64 = w as u64;
                    if p.total > count || w > count - p.total || w < len as u64 || w == 0 {
                        return Some(Moved::Total(p.total.wrapping_add(w)));
                    }
                    p.total = p.total + w;
                    p.chunk = Vec::new();
                    p.done = 0;
                    assert(p.chunk@ =~= Seq::empty());
                },
            }
        }
    }
}

/// `sendfile(out, in, *offset, count)`: copies between descriptors. With an
/// offset the source is read from there, and the new offset stored.
pub open spec fn sendfile_call(
    c: Caller,
    t: Tv,
    s: Sv,
    p: Pg,
    out_fd: u64,
    in_fd: u64,
    off_ptr: u64,
    count: u64,
) -> Option<(Caller, Tv, Sv, Pg, Outcome)> {
    match (sys::file_of(t, s, in_fd as i32), sys::file_of(t, s, out_fd as i32)) {
        (Some(src), Some(dst)) => {
            let begin = p.total == 0 && p.chunk.len() == 0 && off_ptr != 0;
            let start = process::word64(t.space.mem, off_ptr as int);
            if begin && start is None || p.done > p.chunk.len() {
                None
            } else {
                let (files, at) = if begin {
                    file::file_seek(s.files, src, start->0 as i64, file::SEEK_SET)
                } else {
                    (s.files, 0)
                };
                if at < 0 {
                    Some((c, t, Sv { files, ..s }, fresh(), Outcome::Return(file::EINVAL)))
                } else {
                    match started(
                        Sv { files, ..s },
                        src,
                        dst,
                        count,
                        Pg { path: Seq::empty(), ..p },
                    ) {
                        None => None,
                        Some((s2, Sent::Wait(id, pg))) => Some(
                            (c, t, s2, pg, Outcome::Block { file: id, done: pg.done }),
                        ),
                        Some((s2, Sent::Error(e))) => Some(
                            (c, t, s2, fresh(), Outcome::Return(e)),
                        ),
                        Some((s2, Sent::Total(n))) => {
                            let (f3, cur) = file::file_seek(s2.files, src, 0, file::SEEK_CUR);
                            if off_ptr == 0 {
                                Some((c, t, s2, fresh(), Outcome::Return(n as i64)))
                            } else if cur < 0 {
                                Some(
                                    (
                                        c,
                                        t,
                                        Sv { files: f3, ..s2 },
                                        fresh(),
                                        Outcome::Return(n as i64),
                                    ),
                                )
                            } else {
                                match task::poked(t, off_ptr as int, bytes::bytes64(cur as u64)) {
                                    None => None,
                                    Some(t2) => Some(
                                        (
                                            c,
                                            t2,
                                            Sv { files: f3, ..s2 },
                                            fresh(),
                                            Outcome::Return(n as i64),
                                        ),
                                    ),
                                }
                            }
                        },
                    }
                }
            }
        },
        _ => Some((c, t, s, fresh(), Outcome::Return(file::EBADF))),
    }
}

pub fn sys_sendfile(
    c: &Caller,
    t: &mut Task,
    s: &mut Sys,
    p: &mut Progress,
    out_fd: u64,
    in_fd: u64,
    off_ptr: u64,
    count: u64,
) -> (r: Outcome)
    requires
        old(t).wf(),
        old(s).wf(),
    ensures
        final(t).wf(),
        final(t).pml4() == old(t).pml4(),
        final(s).wf(),
        match sendfile_call(*c, old(t)@, old(s)@, old(p)@, out_fd, in_fd, off_ptr, count) {
            None => r == Outcome::Fault,
            Some((_, t2, s2, p2, o)) => r == o && final(t)@ == t2 && final(s)@ == s2
                && final(p)@ == p2,
        },
{
    let ghost p0 = p@;
    p.path = Vec::new();
    assert(p@ =~= (Pg { path: Seq::empty(), ..p0 }));
    let (src, dst) = match (
        crate::sys::find_file(t, s, in_fd as i32),
        crate::sys::find_file(t, s, out_fd as i32),
    ) {
        (Some(a), Some(b)) => (a, b),
        _ => {
            *p = Progress::new();
            return Outcome::Return(crate::file::EBADF);
        },
    };
    let begin: bool = p.total == 0 && p.chunk.len() == 0 && off_ptr != 0;
    if p.done > p.chunk.len() as u64 {
        return Outcome::Fault;
    }
    if begin {
        let start: u64 = match t.load64(off_ptr, 0) {
            Some(v) => v,
            None => { return Outcome::Fault; },
        };
        let at: i64 = s.files.seek(src, start as i64, crate::file::SEEK_SET);
        if at < 0 {
            *p = Progress::new();
            return Outcome::Return(crate::file::EINVAL);
        }
    }
    match copy_files(s, src, dst, count, p) {
        None => Outcome::Fault,
        Some(Moved::Wait(id)) => Outcome::Block { file: id, done: p.done },
        Some(Moved::Error(e)) => {
            *p = Progress::new();
            Outcome::Return(e)
        },
        Some(Moved::Total(n)) => {
            *p = Progress::new();
            if off_ptr != 0 {
                let cur: i64 = s.files.seek(src, 0, crate::file::SEEK_CUR);
                if cur >= 0 {
                    if !t.store64(off_ptr, 0, cur as u64) {
                        return Outcome::Fault;
                    }
                }
            }
            Outcome::Return(n as i64)
        },
    }
}

} // verus!
