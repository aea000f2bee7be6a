//! The process guard: what the kernel side reports of every started program,
//! and how the events reach their reader.
use vstd::prelude::*;

use crate::bytes;
use crate::text;

verus! {

/// The length of a task's name.
pub const COMM_LEN: usize = 16;

/// How many bytes of a program's path are reported.
pub const PATH_LEN: usize = 128;

/// The size of an event as it is passed on, padding included.
pub const EVENT_LEN: usize = 156;

/// The place of the path's descriptor in a record.
pub const FILENAME_DATA_LOC_OFFSET: usize = 8;

pub const INVALID: &'static str = "<invalid-utf8>";

#[derive(Clone, Copy)]
pub struct ExecEvent {
    pub pid: u32,
    pub uid: u32,
    pub comm: [u8; 16],
    pub filename: [u8; 128],
    /// The length of the path with its closing NUL, cut to what fits.
    pub filename_len: u16,
}

/// The place of the first zero byte, from `i` on; the length if there is none.
pub open spec fn nul_at(b: Seq<u8>, i: int) -> int
    decreases b.len() - i,
{
    if i >= b.len() {
        b.len() as int
    } else if b[i] == 0 {
        i
    } else {
        nul_at(b, i + 1)
    }
}

/// The bytes read as text.
pub open spec fn shown(b: Seq<u8>) -> Seq<char> {
    if vstd::utf8::valid_utf8(b) {
        vstd::utf8::decode_utf8(b)
    } else {
        INVALID@
    }
}

/// How many bytes of the path there are, its closing NUL left out.
pub open spec fn path_len(e: ExecEvent) -> int {
    let len = if e.filename_len < PATH_LEN {
        e.filename_len as int
    } else {
        PATH_LEN as int
    };
    if len > 0 && e.filename@[len - 1] == 0 {
        len - 1
    } else {
        len
    }
}

fn show(b: &[u8]) -> (r: &str)
    ensures
        r@ == shown(b@),
{
    match text::utf8_text(b) {
        Some(s) => {
            proof {
                vstd::utf8::encode_utf8_decode_utf8(s@);
            }
            s
        },
        None => INVALID,
    }
}

impl ExecEvent {
    /// An event with nothing in it.
    pub fn zeroed() -> (r: Self)
        ensures
            r.pid == 0,
            r.uid == 0,
            r.comm@ == bytes::zeros(16),
            r.filename@ == bytes::zeros(128),
            r.filename_len == 0,
    {
        let r = ExecEvent {
            pid: 0,
            uid: 0,
            comm: [0u8; 16],
            filename: [0u8; 128],
            filename_len: 0,
        };
        assert(r.comm@ =~= bytes::zeros(16));
        assert(r.filename@ =~= bytes::zeros(128));
        r
    }

    /// The task's name up to the first NUL.
    pub fn comm_str(&self) -> (r: &str)
        ensures
            r@ == shown(self.comm@.take(nul_at(self.comm@, 0))),
    {
        let mut end: usize = 0;
        while end < COMM_LEN && self.comm[end] != 0
            invariant
                end <= COMM_LEN,
                nul_at(self.comm@, 0) == nul_at(self.comm@, end as int),
            decreases COMM_LEN - end,
        {
            end = end + 1;
        }
        assert(self.comm@.subrange(0, end as int) =~= self.comm@.take(end as int));
        show(vstd::slice::slice_subrange(self.comm.as_slice(), 0, end))
    }

    /// The path, without its closing NUL.
    pub fn filename_str(&self) -> (r: &str)
        ensures
            r@ == shown(self.filename@.take(path_len(*self))),
    {
        let n: usize = self.filename_len as usize;
        let mut len: usize = if n < PATH_LEN { n } else { PATH_LEN };
        if len > 0 && self.filename[len - 1] == 0 {
            len = len - 1;
        }
        assert(self.filename@.subrange(0, len as int) =~= self.filename@.take(len as int));
        show(vstd::slice::slice_subrange(self.filename.as_slice(), 0, len))
    }
}

/// An event as its fields.
#[verifier::ext_equal]
pub struct Exec {
    pub pid: u32,
    pub uid: u32,
    pub comm: Seq<u8>,
    pub filename: Seq<u8>,
    pub filename_len: u16,
}

impl View for ExecEvent {
    type V = Exec;

    open spec fn view(&self) -> Exec {
        Exec {
            pid: self.pid,
            uid: self.uid,
            comm: self.comm@,
            filename: self.filename@,
            filename_len: self.filename_len,
        }
    }
}

// --- the kernel side ---

/// The byte of a record that can be read at `at`.
pub open spec fn byte_at(record: Seq<u8>, at: int) -> Option<u8> {
    if 0 <= at < record.len() {
        Some(record[at])
    } else {
        None
    }
}

/// How many of the `n` bytes from `at` on can be read, the first `i` among
/// them.
pub open spec fn readable(record: Seq<u8>, at: int, n: int, i: int) -> int
    decreases n - i,
{
    if i < n && byte_at(record, at + i) is Some {
        readable(record, at, n, i + 1)
    } else {
        i
    }
}

/// The event for a record of a started program: its ids from the two packed
/// words, its name, and its path, which the descriptor's low half places and
/// whose high half counts it. Nothing where the descriptor cannot be read.
pub open spec fn exec_of(pid_tgid: u64, uid_gid: u64, comm: Option<[u8; 16]>, record: Seq<u8>) -> Option<
    Exec,
> {
    if record.len() < FILENAME_DATA_LOC_OFFSET + 4 {
        None
    } else {
        let loc = bytes::le32(record, FILENAME_DATA_LOC_OFFSET as int);
        let at = (loc & 0xFFFF) as int;
        let len = (loc >> 16) as int;
        let n = if len < PATH_LEN {
            len
        } else {
            PATH_LEN as int
        };
        let got = readable(record, at, n, 0);
        Some(
            Exec {
                pid: (pid_tgid >> 32) as u32,
                uid: (uid_gid & 0xFFFF_FFFF) as u32,
                comm: match comm {
                    Some(c) => c@,
                    None => bytes::zeros(16),
                },
                filename: Seq::new(
                    128,
                    |i: int|
                        if i < got {
                            record[at + i]
                        } else {
                            0u8
                        },
                ),
                filename_len: n as u16,
            },
        )
    }
}

/// Build the event for a record.
pub fn try_tarnod_exec(pid_tgid: u64, uid_gid: u64, comm: Option<[u8; 16]>, record: &[u8]) -> (r: Option<
    ExecEvent,
>)
    ensures
        match exec_of(pid_tgid, uid_gid, comm, record@) {
            Some(e) => r is Some && r->0@ == e,
            None => r is None,
        },
{
    let len: usize = record.len();
    if len < FILENAME_DATA_LOC_OFFSET + 4 {
        return None;
    }
    let loc: u32 = bytes::load32(record, FILENAME_DATA_LOC_OFFSET);
    let at: usize = (loc & 0xFFFF) as usize;
    let str_len: usize = (loc >> 16) as usize;
    proof {
        assert(loc & 0xFFFF <= 0xFFFF) by (bit_vector);
        assert(loc >> 16 <= 0xFFFF) by (bit_vector);
        assert(pid_tgid >> 32 <= 0xFFFF_FFFF) by (bit_vector);
        assert(uid_gid & 0xFFFF_FFFF <= 0xFFFF_FFFF) by (bit_vector);
    }
    let n: usize = if str_len < PATH_LEN { str_len } else { PATH_LEN };
    let mut e = ExecEvent::zeroed();
    e.pid = (pid_tgid >> 32) as u32;
    e.uid = (uid_gid & 0xFFFF_FFFF) as u32;
    match comm {
        Some(c) => {
            e.comm = c;
        },
        None => {},
    }
    e.filename_len = n as u16;
    let ghost e0 = e;
    let mut i: usize = 0;
    while i < n && at + i < len
        invariant
            i <= n <= PATH_LEN,
            at <= 0xFFFF,
            len == record@.len(),
            readable(record@, at as int, n as int, 0) == readable(
                record@,
                at as int,
                n as int,
                i as int,
            ),
            e == (ExecEvent { filename: e.filename, ..e0 }),
            e.filename@ == Seq::new(
                128,
                |k: int|
                    if k < i {
                        record@[at + k]
                    } else {
                        0u8
                    },
            ),
        decreases n - i,
    {
        e.filename[i] = record[at + i];
        i = i + 1;
        assert(e.filename@ =~= Seq::new(
            128,
            |k: int|
                if k < i {
                    record@[at + k]
                } else {
                    0u8
                },
        ));
    }
    assert(i == readable(record@, at as int, n as int, 0));
    Some(e)
}

// --- the reader's side ---

/// The event a delivered item holds; nothing where it is too short.
pub open spec fn item_event(b: Seq<u8>) -> Option<Exec> {
    if b.len() < EVENT_LEN {
        None
    } else {
        Some(
            Exec {
                pid: bytes::le32(b, 0),
                uid: bytes::le32(b, 4),
                comm: b.subrange(8, 24),
                filename: b.subrange(24, 152),
                filename_len: bytes::le16(b, 152),
            },
        )
    }
}

/// Read an event out of a delivered item.
pub fn decode(b: &[u8]) -> (r: Option<ExecEvent>)
    ensures
        match item_event(b@) {
            Some(e) => r is Some && r->0@ == e,
            None => r is None,
        },
{
    if b.len() < EVENT_LEN {
        return None;
    }
    let mut e = ExecEvent::zeroed();
    e.pid = bytes::load32(b, 0);
    e.uid = bytes::load32(b, 4);
    e.filename_len = bytes::load16(b, 152);
    let ghost e0 = e;
    let mut i: usize = 0;
    while i < COMM_LEN
        invariant
            i <= COMM_LEN,
            b@.len() >= EVENT_LEN,
            e == (ExecEvent { comm: e.comm, ..e0 }),
            forall|k: int| 0 <= k < i ==> e.comm@[k] == b@[8 + k],
        decreases COMM_LEN - i,
    {
        e.comm[i] = b[8 + i];
        i = i + 1;
    }
    let ghost e1 = e;
    let mut j: usize = 0;
    while j < PATH_LEN
        invariant
            j <= PATH_LEN,
            b@.len() >= EVENT_LEN,
            e == (ExecEvent { filename: e.filename, ..e1 }),
            forall|k: int| 0 <= k < j ==> e.filename@[k] == b@[24 + k],
        decreases PATH_LEN - j,
    {
        e.filename[j] = b[24 + j];
        j = j + 1;
    }
    assert(e.comm@ =~= b@.subrange(8, 24));
    assert(e.filename@ =~= b@.subrange(24, 152));
    Some(e)
}

/// The events of these items, in order; the items too short are skipped.
pub open spec fn item_events(items: Seq<Seq<u8>>) -> Seq<Exec>
    decreases items.len(),
{
    if items.len() == 0 {
        Seq::empty()
    } else {
        let rest = item_events(items.drop_last());
        match item_event(items.last()) {
            Some(e) => rest.push(e),
            None => rest,
        }
    }
}

pub open spec fn event_views(v: Seq<ExecEvent>) -> Seq<Exec> {
    v.map_values(|e: ExecEvent| e@)
}

/// The events that were read and not handed out yet. A wake-up comes once for
/// everything that is there, so all of it is kept.
pub struct Pending {
    events: Vec<ExecEvent>,
}

impl View for Pending {
    type V = Seq<Exec>;

    closed spec fn view(&self) -> Seq<Exec> {
        event_views(self.events@)
    }
}

impl Pending {
    pub fn new() -> (r: Self)
        ensures
            r@ == Seq::<Exec>::empty(),
    {
        let r = Pending { events: Vec::new() };
        assert(r@ =~= Seq::<Exec>::empty());
        r
    }

    /// Keep every event of the items that came in.
    pub fn take_in(&mut self, items: &Vec<Vec<u8>>)
        ensures
            final(self)@ == old(self)@ + item_events(text::texts8(items@)),
    {
        let n: usize = items.len();
        let mut i: usize = 0;
        let ghost all = text::texts8(items@);
        assert(all.take(0) =~= Seq::<Seq<u8>>::empty());
        assert(self@ =~= old(self)@ + item_events(all.take(0)));
        while i < n
            invariant
                i <= n,
                n == items@.len(),
                all == text::texts8(items@),
                self@ == old(self)@ + item_events(all.take(i as int)),
            decreases n - i,
        {
            assert(all.take(i + 1).drop_last() =~= all.take(i as int));
            assert(all.take(i + 1).last() == items@[i as int]@);
            let ghost before = self.events@;
            match decode(items[i].as_slice()) {
                Some(e) => {
                    self.events.push(e);
                    assert(event_views(self.events@) =~= event_views(before).push(e@));
                },
                None => {},
            }
            i = i + 1;
            assert(self@ =~= old(self)@ + item_events(all.take(i as int)));
        }
        assert(all.take(n as int) =~= all);
    }

    /// The oldest event, if any; with none, wait for more to come in.
    pub fn next(&mut self) -> (r: Option<ExecEvent>)
        ensures
            old(self)@.len() == 0 ==> r is None && final(self)@ == old(self)@,
            old(self)@.len() > 0 ==> r is Some && r->0@ == old(self)@[0] && final(self)@
                == old(self)@.skip(1),
    {
        if self.events.len() == 0 {
            return None;
        }
        assert(event_views(self.events@)[0] == self.events@[0]@);
        let e = self.events.remove(0);
        assert(event_views(self.events@) =~= event_views(old(self).events@).skip(1));
        Some(e)
    }
}

/// No event is lost, and none overtakes another: what is handed out and what
/// is still kept is, in order, everything that came in.
pub proof fn law_no_event_is_lost(first: Seq<Seq<u8>>, second: Seq<Seq<u8>>)
    ensures
        item_events(first + second) == item_events(first) + item_events(second),
    decreases second.len(),
{
    if second.len() == 0 {
        assert(first + second =~= first);
        assert(item_events(first) + item_events(second) =~= item_events(first));
    } else {
        law_no_event_is_lost(first, second.drop_last());
        assert((first + second).drop_last() =~= first + second.drop_last());
        assert(item_events(first + second) =~= item_events(first) + item_events(second));
    }
}

proof fn lemma_readable(record: Seq<u8>, at: int, n: int, i: int)
    requires
        0 <= i <= n,
    ensures
        i <= readable(record, at, n, i) <= n,
    decreases n - i,
{
    if i < n && byte_at(record, at + i) is Some {
        lemma_readable(record, at, n, i + 1);
    }
}

/// What follows the reported path is zero, so a path shorter than the space
/// for it ends in a NUL.
pub proof fn law_path_is_padded(
    pid_tgid: u64,
    uid_gid: u64,
    comm: Option<[u8; 16]>,
    record: Seq<u8>,
    i: int,
)
    requires
        exec_of(pid_tgid, uid_gid, comm, record) is Some,
        exec_of(pid_tgid, uid_gid, comm, record)->0.filename_len <= i < PATH_LEN,
    ensures
        exec_of(pid_tgid, uid_gid, comm, record)->0.filename[i] == 0,
{
    let loc = bytes::le32(record, FILENAME_DATA_LOC_OFFSET as int);
    let at = (loc & 0xFFFF) as int;
    let len = (loc >> 16) as int;
    assert(loc >> 16 <= 0xFFFF) by (bit_vector);
    let n = if len < PATH_LEN {
        len
    } else {
        PATH_LEN as int
    };
    lemma_readable(record, at, n, 0);
}

} // verus!
