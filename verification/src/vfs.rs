//! A flat in-memory file system, and open files by handle.
use vstd::prelude::*;

use crate::byte_order;
use crate::file;
use crate::object::{Handle, HandleTable, Kind, Object};
use crate::text;

verus! {

/// A file's contents, read and written at any offset.
pub trait Vnode {
    spec fn bytes(&self) -> Seq<u8>;

    fn len(&self) -> (r: usize)
        ensures
            r == self.bytes().len(),
    ;

    /// At most `n` bytes from `offset` on.
    fn read_at(&self, offset: usize, n: usize) -> (r: Vec<u8>)
        ensures
            r@ == file::window(self.bytes(), offset as int, n as int),
    ;

    /// Write at `offset`; a gap before it reads as zeros.
    fn write_at(&mut self, offset: usize, buf: &[u8]) -> (r: usize)
        requires
            offset + buf@.len() <= usize::MAX,
        ensures
            r == buf@.len(),
            final(self).bytes() == overlaid(old(self).bytes(), offset as int, buf@),
    ;
}

/// `data` with `b` at `at`, extended as far as it needs.
pub open spec fn overlaid(data: Seq<u8>, at: int, b: Seq<u8>) -> Seq<u8> {
    let n = if at + b.len() > data.len() {
        at + b.len()
    } else {
        data.len() as int
    };
    Seq::new(
        n as nat,
        |i: int|
            if at <= i < at + b.len() {
                b[i - at]
            } else if i < data.len() {
                data[i]
            } else {
                0
            },
    )
}

/// A regular file in memory.
pub struct RamFile {
    data: Vec<u8>,
}

impl RamFile {
    pub fn new() -> (r: RamFile)
        ensures
            r.bytes() == Seq::<u8>::empty(),
    {
        let r = RamFile { data: Vec::new() };
        assert(r.data@ =~= Seq::<u8>::empty());
        r
    }
}

impl Vnode for RamFile {
    closed spec fn bytes(&self) -> Seq<u8> {
        self.data@
    }

    fn len(&self) -> (r: usize) {
        self.data.len()
    }

    fn read_at(&self, offset: usize, n: usize) -> (r: Vec<u8>) {
        let len: usize = self.data.len();
        if offset >= len {
            let none: Vec<u8> = Vec::new();
            assert(none@ =~= file::window(self.data@, offset as int, n as int));
            return none;
        }
        let k: usize = if n < len - offset { n } else { len - offset };
        crate::bytes::sub(self.data.as_slice(), offset, offset + k)
    }

    fn write_at(&mut self, offset: usize, buf: &[u8]) -> (r: usize) {
        let n: usize = buf.len();
        let ghost d0 = self.data@;
        while self.data.len() < offset + n
            invariant
                n == buf@.len(),
                offset + n <= usize::MAX,
                d0.len() <= self.data@.len(),
                self.data@.len() <= offset + n || self.data@.len() == d0.len(),
                forall|i: int| 0 <= i < d0.len() ==> self.data@[i] == d0[i],
                forall|i: int| d0.len() <= i < self.data@.len() ==> self.data@[i] == 0,
            decreases offset + n - self.data@.len(),
        {
            self.data.push(0);
        }
        let ghost d1 = self.data@;
        let mut i: usize = 0;
        while i < n
            invariant
                i <= n,
                n == buf@.len(),
                offset + n <= usize::MAX,
                offset + n <= d1.len(),
                self.data@.len() == d1.len(),
                forall|j: int| offset <= j < offset + i ==> self.data@[j] == buf@[j - offset],
                forall|j: int|
                    0 <= j < d1.len() && !(offset <= j < offset + i) ==> self.data@[j] == d1[j],
            decreases n - i,
        {
            self.data.set(offset + i, buf[i]);
            i = i + 1;
        }
        proof {
            let want = overlaid(d0, offset as int, buf@);
            assert(self.data@.len() == want.len());
            assert forall|j: int| 0 <= j < want.len() implies self.data@[j] == want[j] by {
                if !(offset <= j < offset + n) {
                    assert(self.data@[j] == d1[j]);
                }
            }
            assert(self.data@ =~= want);
        }
        n
    }
}

/// An open file: which one, and where the next read or write starts.
#[derive(Clone, Copy)]
pub struct OpenFile {
    pub vnode: usize,
    pub offset: usize,
}

proof fn lemma_before_total(a: Seq<char>, b: Seq<char>)
    ensures
        byte_order::before(a, b) || byte_order::before(b, a) || a == b,
        !(byte_order::before(a, b) && byte_order::before(b, a)),
        !byte_order::before(a, a),
    decreases a.len(),
{
    if a.len() > 0 && b.len() > 0 && a[0] == b[0] {
        lemma_before_total(a.skip(1), b.skip(1));
        if a.skip(1) == b.skip(1) {
            assert(a =~= seq![a[0]] + a.skip(1));
            assert(b =~= seq![b[0]] + b.skip(1));
        }
    }
    if a.len() == 0 && b.len() == 0 {
        assert(a =~= b);
    }
    if a.len() > 0 {
        lemma_before_total(a.skip(1), a.skip(1));
    }
}

proof fn lemma_before_trans(a: Seq<char>, b: Seq<char>, c: Seq<char>)
    requires
        byte_order::before(a, b),
        byte_order::before(b, c),
    ensures
        byte_order::before(a, c),
    decreases a.len(),
{
    if a.len() > 0 && a[0] == b[0] && b[0] == c[0] {
        lemma_before_trans(a.skip(1), b.skip(1), c.skip(1));
    }
}

fn is_before(a: &[char], b: &[char]) -> (r: bool)
    ensures
        r == byte_order::before(a@, b@),
{
    let n: usize = a.len();
    let m: usize = b.len();
    let mut i: usize = 0;
    assert(a@.skip(0) =~= a@);
    assert(b@.skip(0) =~= b@);
    while i < n && i < m && a[i] == b[i]
        invariant
            i <= n,
            i <= m,
            n == a@.len(),
            m == b@.len(),
            byte_order::before(a@, b@) == byte_order::before(a@.skip(i as int), b@.skip(i as int)),
        decreases n - i,
    {
        assert(a@.skip(i as int).skip(1) =~= a@.skip(i + 1));
        assert(b@.skip(i as int).skip(1) =~= b@.skip(i + 1));
        i = i + 1;
    }
    if i >= m {
        false
    } else if i >= n {
        true
    } else {
        char_below(a[i], b[i])
    }
}

fn char_below(a: char, b: char) -> (r: bool)
    ensures
        r == ((a as int) < (b as int)),
{
    (a as u32) < (b as u32)
}

/// A name and the file it stands for.
pub struct Name {
    pub path: Vec<char>,
    pub vnode: usize,
}

/// The file system.
pub struct RamFs {
    names: Vec<Name>,
    vnodes: Vec<RamFile>,
}

#[verifier::ext_equal]
pub struct Fs {
    pub names: Map<Seq<char>, usize>,
    pub vnodes: Seq<Seq<u8>>,
}

pub open spec fn contents(v: Seq<RamFile>) -> Seq<Seq<u8>> {
    v.map_values(|f: RamFile| f.bytes())
}

/// What the names of a list stand for; the last of a name counts.
pub open spec fn name_map(v: Seq<Name>) -> Map<Seq<char>, usize>
    decreases v.len(),
{
    if v.len() == 0 {
        Map::empty()
    } else {
        name_map(v.drop_last()).insert(v.last().path@, v.last().vnode)
    }
}

/// The file system after a file was made, or its name given a new empty one.
pub open spec fn created(fs: Fs, path: Seq<char>) -> Fs {
    Fs {
        names: fs.names.insert(path, fs.vnodes.len() as usize),
        vnodes: fs.vnodes.push(Seq::empty()),
    }
}

/// The file system after `b` was written where `o` stands.
pub open spec fn written(fs: Fs, o: OpenFile, b: Seq<u8>) -> Fs {
    Fs {
        vnodes: fs.vnodes.update(
            o.vnode as int,
            overlaid(fs.vnodes[o.vnode as int], o.offset as int, b),
        ),
        ..fs
    }
}

/// The names in order, each once.
pub open spec fn is_listing(fs: Fs, l: Seq<Seq<char>>) -> bool {
    &&& forall|i: int, j: int| #![trigger l[i], l[j]] 0 <= i < j < l.len() ==> byte_order::before(l[i], l[j])
    &&& forall|p: Seq<char>| #[trigger] fs.names.contains_key(p) == l.contains(p)
}

/// Every open file of the table is one of the file system.
pub open spec fn knows(fs: Fs, m: Map<u32, Object>) -> bool {
    forall|h: u32|
        #[trigger] m.contains_key(h) ==> match m[h] {
            Object::File(o) => o.vnode < fs.vnodes.len(),
            _ => true,
        }
}

impl View for RamFs {
    type V = Fs;

    closed spec fn view(&self) -> Fs {
        Fs {
            names: name_map(self.names@),
            vnodes: contents(self.vnodes@),
        }
    }
}

spec fn sorted(v: Seq<Name>) -> bool {
    forall|i: int, j: int|
        #![trigger v[i], v[j]]
        0 <= i < j < v.len() ==> byte_order::before(v[i].path@, v[j].path@)
}

proof fn lemma_name_map(v: Seq<Name>)
    requires
        sorted(v),
    ensures
        forall|p: Seq<char>| #[trigger]
            name_map(v).contains_key(p) <==> exists|i: int|
                0 <= i < v.len() && (#[trigger] v[i]).path@ == p,
        forall|i: int|
            0 <= i < v.len() ==> name_map(v).contains_key((#[trigger] v[i]).path@) && name_map(
                v,
            )[v[i].path@] == v[i].vnode,
    decreases v.len(),
{
    if v.len() > 0 {
        let w = v.drop_last();
        assert(sorted(w)) by {
            assert forall|i: int, j: int|
                #![trigger w[i], w[j]]
                0 <= i < j < w.len() implies byte_order::before(w[i].path@, w[j].path@) by {
                assert(w[i] == v[i] && w[j] == v[j]);
            }
        }
        lemma_name_map(w);
        assert forall|p: Seq<char>| #[trigger] name_map(v).contains_key(p) <==> exists|i: int|
            0 <= i < v.len() && (#[trigger] v[i]).path@ == p by {
            if name_map(v).contains_key(p) && p != v.last().path@ {
                assert(name_map(w).contains_key(p));
                let i = choose|i: int| 0 <= i < w.len() && (#[trigger] w[i]).path@ == p;
                assert(v[i].path@ == p);
            }
            if exists|i: int| 0 <= i < v.len() && (#[trigger] v[i]).path@ == p {
                let i = choose|i: int| 0 <= i < v.len() && (#[trigger] v[i]).path@ == p;
                if i < w.len() {
                    assert(w[i].path@ == p);
                    assert(name_map(w).contains_key(p));
                }
            }
            assert(v[v.len() - 1].path@ == v.last().path@);
        }
        assert forall|i: int| 0 <= i < v.len() implies name_map(v).contains_key(
            (#[trigger] v[i]).path@,
        ) && name_map(v)[v[i].path@] == v[i].vnode by {
            if i < w.len() {
                assert(w[i] == v[i]);
                assert(byte_order::before(v[i].path@, v[v.len() - 1].path@));
                lemma_before_total(v[i].path@, v[v.len() - 1].path@);
            }
        }
    }
}

impl RamFs {
    /// The names are in order, each once, and stand for files that are there.
    pub closed spec fn wf(self) -> bool {
        &&& sorted(self.names@)
        &&& forall|i: int|
            0 <= i < self.names@.len() ==> (#[trigger] self.names@[i]).vnode < self.vnodes@.len()
    }

    /// A file system without files.
    pub fn init() -> (r: RamFs)
        ensures
            r.wf(),
            r@ == (Fs { names: Map::empty(), vnodes: Seq::empty() }),
    {
        let r = RamFs { names: Vec::new(), vnodes: Vec::new() };
        assert(contents(r.vnodes@) =~= Seq::empty());
        r
    }

    fn place(&self, path: &[char]) -> (r: usize)
        requires
            self.wf(),
        ensures
            r <= self.names@.len(),
            forall|j: int| 0 <= j < r ==> byte_order::before((#[trigger] self.names@[j]).path@, path@),
            r < self.names@.len() ==> !byte_order::before(self.names@[r as int].path@, path@),
    {
        let n: usize = self.names.len();
        let mut i: usize = 0;
        while i < n && is_before(self.names[i].path.as_slice(), path)
            invariant
                i <= n,
                n == self.names@.len(),
                forall|j: int| 0 <= j < i ==> byte_order::before((#[trigger] self.names@[j]).path@, path@),
            decreases n - i,
        {
            i = i + 1;
        }
        i
    }

    /// Make a file, or give the name a new empty one; the file.
    pub fn create(&mut self, path: &str) -> (v: usize)
        requires
            old(self).wf(),
        ensures
            final(self).wf(),
            v == old(self)@.vnodes.len(),
            final(self)@ == created(old(self)@, path@),
    {
        let ghost before_names = self.names@;
        let ghost before_vnodes = self.vnodes@;
        let p = crate::text::chars_of(path);
        let v: usize = self.vnodes.len();
        let i: usize = self.place(p.as_slice());
        let f = RamFile::new();
        self.vnodes.push(f);
        proof {
            assert(contents(self.vnodes@) =~= contents(before_vnodes).push(Seq::empty()));
            lemma_name_map(before_names);
        }
        if i < self.names.len() && crate::text::same_chars(
            self.names[i].path.as_slice(),
            p.as_slice(),
        ) {
            self.names.set(i, Name { path: p, vnode: v });
        } else {
            proof {
                if i < before_names.len() {
                    lemma_before_total(before_names[i as int].path@, p@);
                }
            }
            self.names.insert(i, Name { path: p, vnode: v });
        }
        proof {
            let n = self.names@;
            let grown = n.len() > before_names.len();
            assert forall|a: int| 0 <= a < n.len() implies #[trigger] n[a] == (if a < i {
                before_names[a]
            } else if a == i {
                n[i as int]
            } else if grown {
                before_names[a - 1]
            } else {
                before_names[a]
            }) by {}
            assert(sorted(n)) by {
                assert forall|a: int, b: int|
                    #![trigger n[a], n[b]]
                    0 <= a < b < n.len() implies byte_order::before(n[a].path@, n[b].path@) by {
                    if grown {
                        if a == i {
                            assert(n[b] == before_names[b - 1]);
                            if b - 1 > i {
                                assert(byte_order::before(
                                    before_names[i as int].path@,
                                    before_names[b - 1].path@,
                                ));
                                lemma_before_trans(
                                    p@,
                                    before_names[i as int].path@,
                                    before_names[b - 1].path@,
                                );
                            }
                        } else if b == i {
                        } else {
                            let x = if a < i {
                                a
                            } else {
                                a - 1
                            };
                            let y = if b < i {
                                b
                            } else {
                                b - 1
                            };
                            assert(byte_order::before(before_names[x].path@, before_names[y].path@));
                        }
                    } else {
                        assert(byte_order::before(before_names[a].path@, before_names[b].path@));
                    }
                }
            }
            assert forall|a: int| 0 <= a < n.len() implies (#[trigger] n[a]).vnode
                < self.vnodes@.len() by {
                if a < i {
                    assert(before_names[a].vnode < before_vnodes.len());
                } else if a > i {
                    if grown {
                        assert(before_names[a - 1].vnode < before_vnodes.len());
                    } else {
                        assert(before_names[a].vnode < before_vnodes.len());
                    }
                }
            }
            lemma_name_map(n);
            assert(name_map(n) =~= name_map(before_names).insert(p@, v)) by {
                assert forall|q: Seq<char>| name_map(n).contains_key(q) == name_map(
                    before_names,
                ).insert(p@, v).contains_key(q) by {
                    if name_map(n).contains_key(q) {
                        let a = choose|a: int| 0 <= a < n.len() && (#[trigger] n[a]).path@ == q;
                        if a < i {
                            assert(before_names[a].path@ == q);
                        } else if a > i {
                            if grown {
                                assert(before_names[a - 1].path@ == q);
                            } else {
                                assert(before_names[a].path@ == q);
                            }
                        }
                    }
                    if name_map(before_names).contains_key(q) {
                        let a = choose|a: int|
                            0 <= a < before_names.len() && (#[trigger] before_names[a]).path@ == q;
                        if a < i {
                            assert(n[a].path@ == q);
                        } else if grown {
                            assert(n[a + 1].path@ == q);
                        } else {
                            assert(n[a].path@ == q);
                        }
                    }
                    assert(n[i as int].path@ == p@);
                }
                assert forall|q: Seq<char>| name_map(n).contains_key(q) implies name_map(n)[q]
                    == name_map(before_names).insert(p@, v)[q] by {
                    let a = choose|a: int| 0 <= a < n.len() && (#[trigger] n[a]).path@ == q;
                    if a < i {
                        assert(before_names[a].path@ == q);
                        lemma_before_total(q, p@);
                    } else if a > i {
                        assert(byte_order::before(n[i as int].path@, n[a].path@));
                        lemma_before_total(p@, q);
                        if grown {
                            assert(before_names[a - 1].path@ == q);
                        } else {
                            assert(before_names[a].path@ == q);
                        }
                    }
                }
            }
        }
        v
    }

    /// The file a name stands for.
    pub fn lookup(&self, path: &str) -> (r: Option<usize>)
        requires
            self.wf(),
        ensures
            r == if self@.names.contains_key(path@) {
                Some(self@.names[path@])
            } else {
                None
            },
            r is Some ==> r->0 < self@.vnodes.len(),
    {
        let p = crate::text::chars_of(path);
        let i: usize = self.place(p.as_slice());
        proof {
            lemma_name_map(self.names@);
        }
        if i < self.names.len() && crate::text::same_chars(
            self.names[i].path.as_slice(),
            p.as_slice(),
        ) {
            assert(self.names@[i as int].path@ == p@);
            return Some(self.names[i].vnode);
        }
        proof {
            if self@.names.contains_key(p@) {
                let a = choose|a: int|
                    0 <= a < self.names@.len() && (#[trigger] self.names@[a]).path@ == p@;
                lemma_before_total(p@, p@);
                if a > i {
                    assert(byte_order::before(self.names@[i as int].path@, self.names@[a].path@));
                }
            }
        }
        None
    }

    /// The names, in order.
    pub fn list(&self) -> (r: Vec<Vec<char>>)
        requires
            self.wf(),
        ensures
            is_listing(self@, text::texts(r@)),
    {
        let mut r: Vec<Vec<char>> = Vec::new();
        let n: usize = self.names.len();
        let mut i: usize = 0;
        while i < n
            invariant
                i <= n,
                n == self.names@.len(),
                r@.len() == i,
                forall|j: int| 0 <= j < i ==> (#[trigger] r@[j])@ == self.names@[j].path@,
            decreases n - i,
        {
            r.push(crate::text::copy_chars(self.names[i].path.as_slice()));
            i = i + 1;
        }
        proof {
            let l = text::texts(r@);
            lemma_name_map(self.names@);
            assert forall|i: int, j: int|
                #![trigger l[i], l[j]]
                0 <= i < j < l.len() implies byte_order::before(l[i], l[j]) by {
                assert(l[i] == r@[i]@ && l[j] == r@[j]@);
                assert(byte_order::before(self.names@[i].path@, self.names@[j].path@));
            }
            assert forall|p: Seq<char>| #[trigger] self@.names.contains_key(p) == l.contains(p) by {
                if self@.names.contains_key(p) {
                    let a = choose|a: int|
                        0 <= a < self.names@.len() && (#[trigger] self.names@[a]).path@ == p;
                    assert(l[a] == r@[a]@);
                }
                if l.contains(p) {
                    let a = choose|a: int| 0 <= a < l.len() && l[a] == p;
                    assert(l[a] == r@[a]@);
                    assert(self.names@[a].path@ == p);
                }
            }
        }
        r
    }

    /// Open a file by name, at its start.
    pub fn open(&self, table: &mut HandleTable, path: &str) -> (r: Option<Handle>)
        requires
            self.wf(),
            old(table).wf(),
            old(table).next_handle() < u32::MAX,
        ensures
            final(table).wf(),
            knows(self@, old(table)@) ==> knows(self@, final(table)@),
            if self@.names.contains_key(path@) {
                &&& r == Some(Handle(old(table).next_handle()))
                &&& final(table)@ == old(table)@.insert(
                    old(table).next_handle(),
                    Object::File(OpenFile { vnode: self@.names[path@], offset: 0 }),
                )
                &&& final(table).next_handle() == old(table).next_handle() + 1
            } else {
                r is None && *final(table) == *old(table)
            },
    {
        match self.lookup(path) {
            None => None,
            Some(vnode) => Some(crate::object::insert(table, OpenFile { vnode, offset: 0 })),
        }
    }

    /// Read at most `n` bytes where the handle stands, and move it on; nothing
    /// where the handle is not that of an open file.
    pub fn read(&self, table: &mut HandleTable, h: Handle, n: usize) -> (r: Option<Vec<u8>>)
        requires
            self.wf(),
            old(table).wf(),
            knows(self@, old(table)@),
        ensures
            final(table).wf(),
            knows(self@, final(table)@),
            final(table).next_handle() == old(table).next_handle(),
            match crate::object::yielded::<OpenFile>(old(table)@, h.0) {
                Some(o) => {
                    let got = file::window(self@.vnodes[o.vnode as int], o.offset as int, n as int);
                    &&& r is Some && r->0@ == got
                    &&& final(table)@ == old(table)@.insert(
                        h.0,
                        Object::File(OpenFile { offset: (o.offset + got.len()) as usize, ..o }),
                    )
                },
                None => r is None && final(table)@ == old(table)@,
            },
    {
        let o: OpenFile = match table.get::<OpenFile>(h) {
            Some(o) => *o,
            None => { return None; },
        };
        assert(self@.vnodes[o.vnode as int] == self.vnodes@[o.vnode as int].bytes());
        let len: usize = self.vnodes[o.vnode].len();
        let b = self.vnodes[o.vnode].read_at(o.offset, n);
        let k: usize = b.len();
        table.replace(h, OpenFile { vnode: o.vnode, offset: o.offset + k });
        Some(b)
    }

    /// Write where the handle stands, and move it on; nothing where the handle
    /// is not that of an open file, or the file would be longer than memory can
    /// address.
    pub fn write(&mut self, table: &mut HandleTable, h: Handle, buf: &[u8]) -> (r: Option<usize>)
        requires
            old(self).wf(),
            old(table).wf(),
            knows(old(self)@, old(table)@),
        ensures
            final(self).wf(),
            final(table).wf(),
            knows(final(self)@, final(table)@),
            final(table).next_handle() == old(table).next_handle(),
            match crate::object::yielded::<OpenFile>(old(table)@, h.0) {
                Some(o) => if o.offset + buf@.len() <= usize::MAX {
                    &&& r == Some(buf@.len() as usize)
                    &&& final(self)@ == written(old(self)@, o, buf@)
                    &&& final(table)@ == old(table)@.insert(
                        h.0,
                        Object::File(OpenFile { offset: (o.offset + buf@.len()) as usize, ..o }),
                    )
                } else {
                    r is None && final(self)@ == old(self)@ && final(table)@ == old(table)@
                },
                None => r is None && final(self)@ == old(self)@ && final(table)@ == old(table)@,
            },
    {
        let o: OpenFile = match table.get::<OpenFile>(h) {
            Some(o) => *o,
            None => { return None; },
        };
        let n: usize = buf.len();
        if o.offset > usize::MAX - n {
            return None;
        }
        let ghost before_vnodes = self.vnodes@;
        assert(self@.vnodes[o.vnode as int] == self.vnodes@[o.vnode as int].bytes());
        let k: usize = self.vnodes[o.vnode].write_at(o.offset, buf);
        assert(contents(self.vnodes@) =~= contents(before_vnodes).update(
            o.vnode as int,
            self.vnodes@[o.vnode as int].bytes(),
        ));
        table.replace(h, OpenFile { vnode: o.vnode, offset: o.offset + k });
        Some(k)
    }
}

/// Drop a handle, whatever it stands for; whether there was one.
pub fn close(table: &mut HandleTable, h: Handle) -> (r: bool)
    requires
        old(table).wf(),
    ensures
        final(table).wf(),
        r == old(table)@.contains_key(h.0),
        final(table)@ == old(table)@.remove(h.0),
        final(table).next_handle() == old(table).next_handle(),
{
    crate::object::close(table, h)
}

/// What was written at an offset is read back from there, and the rest of the
/// file is as it was.
pub proof fn law_read_gives_back_the_write(data: Seq<u8>, at: int, b: Seq<u8>, i: int)
    requires
        0 <= at,
    ensures
        file::window(overlaid(data, at, b), at, b.len() as int) == b,
        0 <= i < data.len() && !(at <= i < at + b.len()) ==> overlaid(data, at, b)[i] == data[i],
{
    assert(file::window(overlaid(data, at, b), at, b.len() as int) =~= b);
}

/// The file system after these files were made, in turn.
pub open spec fn all_created(paths: Seq<Seq<char>>) -> Fs
    decreases paths.len(),
{
    if paths.len() == 0 {
        Fs { names: Map::empty(), vnodes: Seq::empty() }
    } else {
        created(all_created(paths.drop_last()), paths.last())
    }
}

proof fn lemma_created_names(paths: Seq<Seq<char>>, p: Seq<char>)
    ensures
        all_created(paths).names.contains_key(p) == paths.contains(p),
    decreases paths.len(),
{
    if paths.len() > 0 {
        let f = paths.drop_last();
        lemma_created_names(f, p);
        if f.contains(p) {
            let i = choose|i: int| 0 <= i < f.len() && f[i] == p;
            assert(paths[i] == p);
        }
        if paths.contains(p) {
            let i = choose|i: int| 0 <= i < paths.len() && paths[i] == p;
            if i < f.len() {
                assert(f[i] == p);
            }
        }
        assert(paths[paths.len() - 1] == paths.last());
    }
}

/// After any series of creates, repeats among them, the listing is each path
/// once in the order of its bytes. A path is listed exactly where it was created
/// and where it can be looked up.
pub proof fn law_listing_is_each_path_once_in_byte_order(
    paths: Seq<Seq<char>>,
    l: Seq<Seq<char>>,
    p: Seq<char>,
)
    requires
        is_listing(all_created(paths), l),
    ensures
        forall|i: int, j: int|
            #![trigger l[i], l[j]]
            0 <= i < j < l.len() ==> byte_order::bytes_before(
                vstd::utf8::encode_utf8(l[i]),
                vstd::utf8::encode_utf8(l[j]),
            ),
        l.no_duplicates(),
        l.contains(p) == paths.contains(p),
        l.contains(p) == all_created(paths).names.contains_key(p),
{
    assert forall|i: int, j: int|
        #![trigger l[i], l[j]]
        0 <= i < j < l.len() implies byte_order::bytes_before(
        vstd::utf8::encode_utf8(l[i]),
        vstd::utf8::encode_utf8(l[j]),
    ) by {
        byte_order::law_character_order_is_byte_order(l[i], l[j]);
    }
    assert forall|i: int, j: int|
        0 <= i < l.len() && 0 <= j < l.len() && i != j implies l[i] != l[j] by {
        lemma_before_total(l[i], l[i]);
        if i < j {
            assert(byte_order::before(l[i], l[j]));
        } else {
            assert(byte_order::before(l[j], l[i]));
        }
    }
    lemma_created_names(paths, p);
}

/// Writing to a file leaves the listing as it is. (To open, to read and to close
/// leave the whole file system as it is.)
pub proof fn law_writing_keeps_the_listing(fs: Fs, o: OpenFile, b: Seq<u8>, l: Seq<Seq<char>>)
    ensures
        is_listing(written(fs, o, b), l) == is_listing(fs, l),
{
    assert(written(fs, o, b).names == fs.names);
}

} // verus!
