//! What reading a directory stream gives: every entry's record once, in order.

use vstd::prelude::*;

use crate::bytes;
use crate::file;
use crate::file::{Fv, Ft, Gotten};
use crate::sys;
use crate::sys::{Caller, Outcome, Sv};
use crate::syscall_fs;
use crate::task;
use crate::task::Tv;

verus! {

/// An entry: inode, type and name.
pub type Entry = (u64, u8, Seq<u8>);

/// How long an entry's record is.
pub open spec fn record_len(e: Entry) -> int {
    (27 + e.2.len() as int) / 8 * 8
}

/// Where the record of entry `k` starts.
pub open spec fn record_at(es: Seq<Entry>, k: int) -> int
    decreases k,
{
    if k <= 0 {
        0
    } else {
        record_at(es, k - 1) + record_len(es[k - 1])
    }
}

/// The records of a directory.
pub open spec fn stream(es: Seq<Entry>) -> Seq<u8> {
    file::dirents(Seq::empty(), es, 0)
}

/// The first entry from `j` on whose record does not fit any more when those
/// from `k` on go into `room` bytes.
pub open spec fn fitting(es: Seq<Entry>, k: int, j: int, room: int) -> int
    decreases es.len() - j,
{
    if j >= es.len() || record_at(es, j + 1) - record_at(es, k) > room {
        j
    } else {
        fitting(es, k, j + 1, room)
    }
}

/// The bytes `r` are the record of entry `e`, and the next one starts at `next`.
pub open spec fn is_record(r: Seq<u8>, e: Entry, next: int) -> bool {
    &&& r.len() == record_len(e)
    &&& bytes::le64(r, 0) == e.0
    &&& bytes::le64(r, 8) == next as u64
    &&& bytes::le16(r, 16) == r.len()
    &&& r[18] == e.1
    &&& r.subrange(19, 19 + e.2.len() as int) == e.2
    &&& r[19 + e.2.len() as int] == 0
}

proof fn lemma_le16_same(s: Seq<u8>, t: Seq<u8>, a: int, b: int)
    requires
        s[a] == t[b],
        s[a + 1] == t[b + 1],
    ensures
        bytes::le16(s, a) == bytes::le16(t, b),
{
}

proof fn lemma_le64_same(s: Seq<u8>, t: Seq<u8>, at: int)
    requires
        forall|i: int| at <= i < at + 8 ==> #[trigger] s[i] == t[i],
    ensures
        bytes::le64(s, at) == bytes::le64(t, at),
{
    assert(s[at] == t[at] && s[at + 1] == t[at + 1] && s[at + 2] == t[at + 2] && s[at + 3] == t[at
        + 3]);
    assert(s[at + 4] == t[at + 4] && s[at + 5] == t[at + 5] && s[at + 6] == t[at + 6] && s[at + 7]
        == t[at + 7]);
}

/// A record holds its entry's inode, type and name, its own length, and where
/// the next one starts.
pub proof fn law_record_holds_its_entry(at: int, e: Entry)
    requires
        e.2.len() <= 255,
    ensures
        is_record(file::dirent(at, e.0, e.1, e.2), e, at + record_len(e)),
{
    let n = record_len(e);
    let next = (at + n) as u64;
    let b0 = bytes::zeros(n as nat);
    let b1 = crate::apc::w64(b0, 0, e.0);
    let b2 = crate::apc::w64(b1, 8, next);
    let b3 = crate::apc::w16(b2, 16, n as u16);
    let b4 = bytes::splice(b3, 18, seq![e.1]);
    let r = bytes::splice(b4, 19, e.2);
    assert(r == file::dirent(at, e.0, e.1, e.2));
    assert(n >= 20 + e.2.len());
    assert(bytes::bytes64(e.0).len() == 8 && bytes::bytes64(next).len() == 8);
    assert(bytes::bytes16(n as u16).len() == 2);
    bytes::lemma_le64_of_splice(b0, 0, e.0);
    bytes::lemma_le64_of_splice(b1, 8, next);
    bytes::lemma_le16_of_splice(b2, 16, n as u16);
    assert forall|i: int| 0 <= i < 8 implies #[trigger] r[i] == b1[i] by {}
    lemma_le64_same(r, b1, 0);
    assert forall|i: int| 8 <= i < 16 implies #[trigger] r[i] == b2[i] by {}
    lemma_le64_same(r, b2, 8);
    lemma_le16_same(r, b3, 16, 16);
    assert(r.subrange(19, 19 + e.2.len() as int) =~= e.2);
}

/// The record of entry `j` lies in `d` at its place.
spec fn lies_in(d: Seq<u8>, es: Seq<Entry>, j: int) -> bool {
    &&& 0 <= record_at(es, j) <= record_at(es, j + 1) <= d.len()
    &&& d.subrange(record_at(es, j), record_at(es, j + 1)) == file::dirent(
        record_at(es, j),
        es[j].0,
        es[j].1,
        es[j].2,
    )
}

proof fn lemma_dirents(b: Seq<u8>, es: Seq<Entry>, i: int)
    requires
        0 <= i <= es.len(),
        b.len() == record_at(es, i),
        file::listable(es),
    ensures
        file::dirents(b, es, i).len() == record_at(es, es.len() as int),
        file::dirents(b, es, i).take(b.len() as int) == b,
        forall|j: int| i <= j < es.len() ==> #[trigger] lies_in(file::dirents(b, es, i), es, j),
    decreases es.len() - i,
{
    let d = file::dirents(b, es, i);
    if i < es.len() {
        let e = es[i];
        let r = file::dirent(b.len() as int, e.0, e.1, e.2);
        assert(r.len() == record_len(e)) by {
            law_record_holds_its_entry(b.len() as int, e);
        }
        let b2 = b + r;
        assert(record_at(es, i + 1) == b2.len());
        lemma_dirents(b2, es, i + 1);
        lemma_ends_rise(es, i + 1, es.len() as int);
        assert(d == file::dirents(b2, es, i + 1));
        assert(d.take(b.len() as int) =~= d.take(b2.len() as int).take(b.len() as int));
        assert(b2.take(b.len() as int) =~= b);
        assert(d.subrange(record_at(es, i), record_at(es, i + 1)) =~= d.take(
            b2.len() as int,
        ).subrange(b.len() as int, b2.len() as int));
        assert(b2.subrange(b.len() as int, b2.len() as int) =~= r);
        assert(lies_in(d, es, i));
    } else {
        assert(d.take(b.len() as int) =~= b);
    }
}

proof fn lemma_ends_rise(es: Seq<Entry>, j: int, k: int)
    requires
        0 <= j <= k <= es.len(),
    ensures
        0 <= record_at(es, j) <= record_at(es, k),
    decreases k,
{
    if k > 0 {
        if j < k {
            lemma_ends_rise(es, j, k - 1);
        } else {
            lemma_ends_rise(es, j - 1, k - 1);
        }
    }
}

/// The stream is the entries' records, one after the other.
pub proof fn law_stream_is_the_records(es: Seq<Entry>, k: int)
    requires
        file::listable(es),
        0 <= k < es.len(),
    ensures
        0 <= record_at(es, k) < record_at(es, k + 1) <= stream(es).len(),
        is_record(
            stream(es).subrange(record_at(es, k), record_at(es, k + 1)),
            es[k],
            record_at(es, k + 1),
        ),
        stream(es).len() == record_at(es, es.len() as int),
{
    lemma_dirents(Seq::empty(), es, 0);
    assert(lies_in(stream(es), es, k));
    law_record_holds_its_entry(record_at(es, k), es[k]);
}

proof fn lemma_records(es: Seq<Entry>, k: int, j: int, room: int)
    requires
        file::listable(es),
        0 <= k <= j <= es.len(),
    ensures
        file::records(
            stream(es),
            record_at(es, k),
            record_at(es, j) - record_at(es, k),
            room,
        ) == Some(record_at(es, fitting(es, k, j, room)) - record_at(es, k)),
        j <= fitting(es, k, j, room) <= es.len(),
    decreases es.len() - j,
{
    assert(stream(es).len() == record_at(es, es.len() as int)) by {
        lemma_dirents(Seq::empty(), es, 0);
    }
    lemma_ends_rise(es, k, j);
    if j < es.len() {
        law_stream_is_the_records(es, j);
        let d = stream(es);
        let at = record_at(es, j);
        let r = d.subrange(at, record_at(es, j + 1));
        assert(r[16] == d[at + 16] && r[17] == d[at + 17]);
        lemma_le16_same(r, d, 16, at + 16);
        if record_at(es, j + 1) - record_at(es, k) <= room {
            lemma_records(es, k, j + 1, room);
        }
    }
}

/// A read of a directory stream that stands at entry `k` gives the records of
/// as many entries from there on as fit whole, and then stands behind them. It
/// fails where not even the next one fits, and gives nothing at the end.
pub proof fn law_getdents_gives_whole_records(t: Ft, id: int, es: Seq<Entry>, k: int, room: int)
    requires
        file::listable(es),
        0 <= k <= es.len(),
        t.files[id] == Fv::Dir(stream(es), record_at(es, k)),
    ensures
        ({
            let m = fitting(es, k, k, room);
            &&& k <= m <= es.len()
            &&& file::file_getdents(t, id, room) == (if k < es.len() && m == k {
                (t, Gotten::Fail(file::EINVAL))
            } else if m == k {
                (t, Gotten::Bytes(Seq::empty()))
            } else {
                (
                    Ft { files: t.files.update(id, Fv::Dir(stream(es), record_at(es, m))), ..t },
                    Gotten::Bytes(stream(es).subrange(record_at(es, k), record_at(es, m))),
                )
            })
        }),
{
    lemma_records(es, k, k, room);
    lemma_dirents(Seq::empty(), es, 0);
    let m = fitting(es, k, k, room);
    if k < es.len() {
        law_stream_is_the_records(es, k);
        lemma_ends_rise(es, k + 1, es.len() as int);
        if m > k {
            lemma_ends_rise(es, k + 1, m);
        }
    }
}

proof fn lemma_all_fit(es: Seq<Entry>, k: int, j: int, room: int)
    requires
        0 <= k <= j <= es.len(),
        record_at(es, es.len() as int) - record_at(es, k) <= room,
    ensures
        fitting(es, k, j, room) == es.len(),
    decreases es.len() - j,
{
    if j < es.len() {
        lemma_ends_rise(es, j + 1, es.len() as int);
        lemma_all_fit(es, k, j + 1, room);
    }
}

/// Names in a directory are at most 255 bytes long.
pub proof fn law_listed_names_fit(data: Seq<u8>, off: int)
    ensures
        file::listable(crate::ext2::dir_entries(data, off)),
    decreases data.len() + 65536 - off,
{
    let es = crate::ext2::dir_entries(data, off);
    if off >= 0 && off + 8 <= data.len() && bytes::le16(data, off + 4) != 0 {
        let rest = crate::ext2::dir_entries(data, off + bytes::le16(data, off + 4));
        law_listed_names_fit(data, off + bytes::le16(data, off + 4));
        assert forall|k: int| 0 <= k < es.len() implies (#[trigger] es[k]).2.len() <= 255 by {
            if es.len() > rest.len() {
                if k > 0 {
                    assert(es[k] == rest[k - 1]);
                }
            } else {
                assert(es[k] == rest[k]);
            }
        }
    }
}

proof fn lemma_put_is_there(fds: Seq<Option<task::Fd>>, e: task::Fd)
    requires
        task::fd_put(fds, e).1 >= 0,
    ensures
        ({
            let (after, fd) = task::fd_put(fds, e);
            0 <= fd < after.len() && after[fd] == Some(e)
        }),
{
    task::lemma_free_slot(fds, 0);
}

/// A directory that was opened is read back with `getdents64`: a buffer that
/// holds all its records gets them all, and the next call returns 0.
pub proof fn law_listed_directory_is_read_back(
    c: Caller,
    t: Tv,
    s: Sv,
    ino: u32,
    fs: crate::ext2::Ext2,
    es: Seq<Entry>,
    buf: u64,
    len: u64,
)
    requires
        crate::ext2::opened(s.disk) == Ok::<_, &'static str>(fs),
        crate::ext2::listed(s.disk, fs, ino) == Ok::<_, &'static str>(es),
        sys::listing_opened(t, s, es).2 >= 0,
        t.fds.len() <= task::FD_LIMIT,
        stream(es).len() <= len <= usize::MAX,
        len <= i64::MAX,
        crate::process::mapped(t.space.mem, buf as int, stream(es).len() as int),
    ensures
        ({
            let (t2, s2, fd) = sys::listing_opened(t, s, es);
            &&& sys::dir_listed(c, t, s, ino) == Some((c, t2, s2, Outcome::Return(fd as i64)))
            &&& syscall_fs::getdents_call(c, t2, s2, fd as u64, buf, len) matches Some((_, t3, s3, o))
            &&& o == Outcome::Return(stream(es).len() as i64)
            &&& crate::process::peek(t3.space.mem, buf as int, stream(es).len()) == stream(es)
            &&& syscall_fs::getdents_call(c, t3, s3, fd as u64, buf, len) == Some(
                (c, t3, s3, Outcome::Return(0)),
            )
        }),
{
    let (t2, s2, fd) = sys::listing_opened(t, s, es);
    let id = s.files.files.len() as int;
    let e = task::Fd { obj: task::Obj::File(id), cloexec: false };
    lemma_put_is_there(t.fds, e);
    task::lemma_free_slot(t.fds, 0);
    let n = es.len() as int;
    let (_, size, block) = crate::ext2::inode_at(s.disk, fs, ino)->Ok_0;
    law_listed_names_fit(crate::ext2::file_data(s.disk, fs, size, block)->Ok_0, 0);
    lemma_dirents(Seq::empty(), es, 0);
    assert(record_at(es, 0) == 0);
    assert((fd as u64) as i32 == fd);
    assert(sys::file_of(t2, s2, (fd as u64) as i32) == Some(id));
    lemma_all_fit(es, 0, 0, len as int);
    law_getdents_gives_whole_records(s2.files, id, es, 0, len as int);
    assert(stream(es).subrange(0, record_at(es, n)) =~= stream(es));
    let b = stream(es);
    crate::process::law_stored_bytes_read_back(t.space.mem, buf as int, b);
    let t3 = Tv {
        space: crate::process::Space {
            mem: crate::process::poke(t.space.mem, buf as int, b),
            ..t.space
        },
        ..t2
    };
    let s3 = Sv { files: file::file_getdents(s2.files, id, len as int).0, ..s2 };
    if n == 0 {
        assert(b =~= Seq::<u8>::empty());
    }
    assert(s3.files.files[id] == Fv::Dir(b, record_at(es, n)));
    law_getdents_gives_whole_records(s3.files, id, es, n, len as int);
    assert(sys::file_of(t3, s3, (fd as u64) as i32) == Some(id));
    let nothing = Seq::<u8>::empty();
    assert(crate::process::poke(t3.space.mem, buf as int, nothing) =~= t3.space.mem);
}

} // verus!
