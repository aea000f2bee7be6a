//! Read-only ext2: walk a path from the root inode and read a file's data
//! blocks (12 direct, single and double indirect).
//!
//! A disk is the sequence of its bytes. Reads are made of whole sectors; one
//! that would pass the last whole sector fails.
use vstd::prelude::*;

use crate::bytes::{load16, load32};
use crate::paths;

verus! {

pub const SECTOR: u64 = 512;

pub const SB_OFFSET: u64 = 1024;

pub const EXT2_MAGIC: u16 = 0xEF53;

pub const ROOT_INO: u32 = 2;

/// What a mounted volume needs to find blocks and inodes.
#[derive(Clone, Copy)]
pub struct Ext2 {
    pub block_size: u32,
    pub inode_size: u32,
    pub inodes_per_group: u32,
    pub first_data_block: u32,
}

/// The parts of an on-disk inode that reading a file needs.
pub struct Inode {
    pub mode: u16,
    pub size: u64,
    pub block: [u32; 15],
}

/// The sectors that cover `[off, off + len)` all exist.
pub open spec fn range_ok(disk: Seq<u8>, off: int, len: int) -> bool {
    (off + len + 511) / 512 <= disk.len() / 512
}

/// What a read of `len` bytes at `off` gives.
pub open spec fn range(disk: Seq<u8>, off: int, len: int) -> Result<Seq<u8>, &'static str> {
    if range_ok(disk, off, len) {
        Ok(disk.subrange(off, off + len))
    } else {
        Err("ext2 disk read")
    }
}

/// Read an arbitrary byte range off the disk.
pub fn disk_range(disk: &[u8], off: u64, len: usize) -> (r: Result<Vec<u8>, &'static str>)
    ensures
        match range(disk@, off as int, len as int) {
            Ok(b) => r is Ok && r->Ok_0@ == b,
            Err(e) => r == Err::<Vec<u8>, &'static str>(e),
        },
{
    let total: usize = disk.len();
    let usable: u64 = (total as u64 / SECTOR) * SECTOR;
    if off > usable || len as u64 > usable - off {
        return Err("ext2 disk read");
    }
    Ok(crate::bytes::sub(disk, off as usize, off as usize + len))
}

/// The volume that the superblock at byte 1024 describes.
pub open spec fn opened(disk: Seq<u8>) -> Result<Ext2, &'static str> {
    match range(disk, 1024, 1024) {
        Err(e) => Err(e),
        Ok(sb) => {
            if crate::bytes::le16(sb, 56) != EXT2_MAGIC {
                Err("ext2 magic not found")
            } else if crate::bytes::le32(sb, 24) >= 32 {
                Err("ext2 block size")
            } else {
                Ok(
                    Ext2 {
                        block_size: 1024u32 << crate::bytes::le32(sb, 24),
                        inode_size: if crate::bytes::le32(sb, 76) >= 1 {
                            crate::bytes::le16(sb, 88) as u32
                        } else {
                            128
                        },
                        inodes_per_group: crate::bytes::le32(sb, 40),
                        first_data_block: crate::bytes::le32(sb, 20),
                    },
                )
            }
        },
    }
}

/// Mount the volume on `disk`.
pub fn open(disk: &[u8]) -> (r: Result<Ext2, &'static str>)
    ensures
        r == opened(disk@),
{
    let sb = match disk_range(disk, SB_OFFSET, 1024) {
        Ok(b) => b,
        Err(e) => { return Err(e); },
    };
    let s = sb.as_slice();
    if load16(s, 56) != EXT2_MAGIC {
        return Err("ext2 magic not found");
    }
    let shift: u32 = load32(s, 24);
    if shift >= 32 {
        return Err("ext2 block size");
    }
    let block_size: u32 = 1024u32 << shift;
    let rev: u32 = load32(s, 76);
    let inode_size: u32 = if rev >= 1 {
        load16(s, 88) as u32
    } else {
        128
    };
    Ok(
        Ext2 {
            block_size,
            inode_size,
            inodes_per_group: load32(s, 40),
            first_data_block: load32(s, 20),
        },
    )
}

/// Block `n` of the volume.
pub open spec fn block_of(disk: Seq<u8>, fs: Ext2, n: u32) -> Result<Seq<u8>, &'static str> {
    range(disk, n * fs.block_size, fs.block_size as int)
}

/// The words of an indirect block.
pub open spec fn words(b: Seq<u8>) -> Seq<u32> {
    Seq::new(b.len() / 4, |i: int| crate::bytes::le32(b, 4 * i))
}

/// Inode number `ino`.
pub open spec fn inode_at(disk: Seq<u8>, fs: Ext2, ino: u32) -> Result<
    (u16, u64, Seq<u32>),
    &'static str,
> {
    if ino == 0 || fs.inodes_per_group == 0 || fs.inode_size < 100 {
        Err("ext2 bad inode")
    } else {
        let group = (ino - 1) / fs.inodes_per_group as int;
        let idx = (ino - 1) % fs.inodes_per_group as int;
        match range(disk, (fs.first_data_block + 1) * fs.block_size + group * 32, 32) {
            Err(e) => Err(e),
            Ok(bgd) => {
                let table = crate::bytes::le32(bgd, 8);
                match range(
                    disk,
                    table * fs.block_size + idx * fs.inode_size,
                    fs.inode_size as int,
                ) {
                    Err(e) => Err(e),
                    Ok(raw) => Ok(
                        (
                            crate::bytes::le16(raw, 0),
                            crate::bytes::le32(raw, 4) as u64,
                            Seq::new(15, |i: int| crate::bytes::le32(raw, 40 + 4 * i)),
                        ),
                    ),
                }
            },
        }
    }
}

impl Inode {
    pub open spec fn parts(self) -> (u16, u64, Seq<u32>) {
        (self.mode, self.size, self.block@)
    }
}

/// `out` with data block `bn` behind it; block 0 is a hole.
pub open spec fn feed(disk: Seq<u8>, fs: Ext2, out: Seq<u8>, bn: u32) -> Result<
    Seq<u8>,
    &'static str,
> {
    if bn == 0 {
        Ok(out + crate::bytes::zeros(fs.block_size as nat))
    } else {
        match block_of(disk, fs, bn) {
            Err(e) => Err(e),
            Ok(b) => Ok(out + b),
        }
    }
}

/// `out` with the blocks `ptrs[k..]` behind it, until `total` bytes are there.
pub open spec fn feed_list(
    disk: Seq<u8>,
    fs: Ext2,
    out: Seq<u8>,
    ptrs: Seq<u32>,
    k: int,
    total: int,
) -> Result<Seq<u8>, &'static str>
    decreases ptrs.len() - k,
{
    if k >= ptrs.len() || out.len() >= total {
        Ok(out)
    } else {
        match feed(disk, fs, out, ptrs[k]) {
            Err(e) => Err(e),
            Ok(o) => feed_list(disk, fs, o, ptrs, k + 1, total),
        }
    }
}

/// `out` with what single-indirect block `bn` points at behind it; a hole
/// stands for as many zeros as it would span, no more than are missing.
pub open spec fn feed_ind(disk: Seq<u8>, fs: Ext2, out: Seq<u8>, bn: u32, total: int) -> Result<
    Seq<u8>,
    &'static str,
> {
    if bn == 0 {
        let span = (fs.block_size / 4) * fs.block_size;
        let missing = if out.len() < total {
            total - out.len()
        } else {
            0
        };
        Ok(
            out + crate::bytes::zeros(
                (if span < missing {
                    span
                } else {
                    missing
                }) as nat,
            ),
        )
    } else {
        match block_of(disk, fs, bn) {
            Err(e) => Err(e),
            Ok(b) => feed_list(disk, fs, out, words(b), 0, total),
        }
    }
}

/// `out` with the single-indirect blocks `ptrs[k..]` followed.
pub open spec fn feed_ind_list(
    disk: Seq<u8>,
    fs: Ext2,
    out: Seq<u8>,
    ptrs: Seq<u32>,
    k: int,
    total: int,
) -> Result<Seq<u8>, &'static str>
    decreases ptrs.len() - k,
{
    if k >= ptrs.len() || out.len() >= total {
        Ok(out)
    } else {
        match feed_ind(disk, fs, out, ptrs[k], total) {
            Err(e) => Err(e),
            Ok(o) => feed_ind_list(disk, fs, o, ptrs, k + 1, total),
        }
    }
}

/// All the bytes reached before the size is applied.
pub open spec fn gathered(disk: Seq<u8>, fs: Ext2, size: u64, block: Seq<u32>) -> Result<
    Seq<u8>,
    &'static str,
> {
    let total = size as int;
    match feed_list(disk, fs, Seq::empty(), block.take(12), 0, total) {
        Err(e) => Err(e),
        Ok(a) => {
            let single = if a.len() < total {
                feed_ind(disk, fs, a, block[12], total)
            } else {
                Ok(a)
            };
            match single {
                Err(e) => Err(e),
                Ok(b) => if b.len() < total && block[13] != 0 {
                    match block_of(disk, fs, block[13]) {
                        Err(e) => Err(e),
                        Ok(d) => feed_ind_list(disk, fs, b, words(d), 0, total),
                    }
                } else {
                    Ok(b)
                },
            }
        },
    }
}

/// The first `n` bytes of `s`, or all of it when it is shorter.
pub open spec fn cut(s: Seq<u8>, n: int) -> Seq<u8> {
    if n < s.len() {
        s.take(n)
    } else {
        s
    }
}

/// What a file holds.
pub open spec fn file_data(disk: Seq<u8>, fs: Ext2, size: u64, block: Seq<u32>) -> Result<
    Seq<u8>,
    &'static str,
> {
    match gathered(disk, fs, size, block) {
        Err(e) => Err(e),
        Ok(b) => Ok(cut(b, size as int)),
    }
}

/// The inode that `name` has in a directory whose records start at `off`.
pub open spec fn dir_find(data: Seq<u8>, off: int, name: Seq<u8>) -> Option<u32>
    decreases data.len() + 65536 - off,
{
    if off < 0 || off + 8 > data.len() {
        None
    } else {
        let ino = crate::bytes::le32(data, off);
        let rec_len = crate::bytes::le16(data, off + 4);
        let name_len = data[off + 6];
        if rec_len == 0 {
            None
        } else if ino != 0 && off + 8 + name_len <= data.len() && data.subrange(
            off + 8,
            off + 8 + name_len,
        ) == name {
            Some(ino)
        } else {
            dir_find(data, off + rec_len, name)
        }
    }
}

/// The `DT_*` number of a file type in a directory record.
pub open spec fn dirent_type(ft: u8) -> u8 {
    if ft == 1 {
        8
    } else if ft == 2 {
        4
    } else if ft == 3 {
        2
    } else if ft == 4 {
        6
    } else if ft == 5 {
        1
    } else if ft == 6 {
        12
    } else if ft == 7 {
        10
    } else {
        0
    }
}

/// The entries of the directory records from `off` on: inode, type and name.
pub open spec fn dir_entries(data: Seq<u8>, off: int) -> Seq<(u64, u8, Seq<u8>)>
    decreases data.len() + 65536 - off,
{
    if off < 0 || off + 8 > data.len() {
        Seq::empty()
    } else {
        let ino = crate::bytes::le32(data, off);
        let rec_len = crate::bytes::le16(data, off + 4);
        let name_len = data[off + 6];
        if rec_len == 0 {
            Seq::empty()
        } else if ino != 0 && off + 8 + name_len <= data.len() {
            seq![
                (
                    ino as u64,
                    dirent_type(data[off + 7]),
                    data.subrange(off + 8, off + 8 + name_len),
                ),
            ] + dir_entries(data, off + rec_len)
        } else {
            dir_entries(data, off + rec_len)
        }
    }
}

/// The entries of directory `dir`.
pub open spec fn listed(disk: Seq<u8>, fs: Ext2, dir: u32) -> Result<
    Seq<(u64, u8, Seq<u8>)>,
    &'static str,
> {
    match inode_at(disk, fs, dir) {
        Err(e) => Err(e),
        Ok((_, size, block)) => match file_data(disk, fs, size, block) {
            Err(e) => Err(e),
            Ok(data) => Ok(dir_entries(data, 0)),
        },
    }
}

pub open spec fn entry_views(v: Seq<(u64, u8, Vec<u8>)>) -> Seq<(u64, u8, Seq<u8>)> {
    v.map_values(|e: (u64, u8, Vec<u8>)| (e.0, e.1, e.2@))
}

/// The inode that `name` has in directory `dir`.
pub open spec fn looked_up(disk: Seq<u8>, fs: Ext2, dir: u32, name: Seq<u8>) -> Result<
    Option<u32>,
    &'static str,
> {
    match inode_at(disk, fs, dir) {
        Err(e) => Err(e),
        Ok((_, size, block)) => match file_data(disk, fs, size, block) {
            Err(e) => Err(e),
            Ok(data) => Ok(dir_find(data, 0, name)),
        },
    }
}

/// The inode reached from `ino` along `comps[k..]`.
pub open spec fn walk(disk: Seq<u8>, fs: Ext2, ino: u32, comps: Seq<Seq<u8>>, k: int) -> Result<
    Option<u32>,
    &'static str,
>
    decreases comps.len() - k,
{
    if k >= comps.len() {
        Ok(Some(ino))
    } else {
        match looked_up(disk, fs, ino, comps[k]) {
            Err(e) => Err(e),
            Ok(None) => Ok(None),
            Ok(Some(next)) => walk(disk, fs, next, comps, k + 1),
        }
    }
}

/// The inode that `path` names.
pub open spec fn path_ino(disk: Seq<u8>, fs: Ext2, path: Seq<u8>) -> Result<
    Option<u32>,
    &'static str,
> {
    walk(disk, fs, ROOT_INO, crate::text::nonempty8(crate::text::pieces8(path, 0x2F)), 0)
}

/// What the file that `path` names holds.
pub open spec fn path_data(disk: Seq<u8>, fs: Ext2, path: Seq<u8>) -> Result<
    Option<Seq<u8>>,
    &'static str,
> {
    match path_ino(disk, fs, path) {
        Err(e) => Err(e),
        Ok(None) => Ok(None),
        Ok(Some(ino)) => match inode_at(disk, fs, ino) {
            Err(e) => Err(e),
            Ok((_, size, block)) => match file_data(disk, fs, size, block) {
                Err(e) => Err(e),
                Ok(data) => Ok(Some(data)),
            },
        },
    }
}

impl Ext2 {
    fn block(&self, disk: &[u8], n: u32) -> (r: Result<Vec<u8>, &'static str>)
        ensures
            match block_of(disk@, *self, n) {
                Ok(b) => r is Ok && r->Ok_0@ == b,
                Err(e) => r == Err::<Vec<u8>, &'static str>(e),
            },
    {
        assert(n * self.block_size <= u32::MAX * u32::MAX) by (nonlinear_arith)
            requires
                n <= u32::MAX,
                self.block_size <= u32::MAX,
        ;
        disk_range(disk, n as u64 * self.block_size as u64, self.block_size as usize)
    }

    /// Read inode `ino`.
    pub fn read_inode(&self, disk: &[u8], ino: u32) -> (r: Result<Inode, &'static str>)
        ensures
            match inode_at(disk@, *self, ino) {
                Ok(p) => r is Ok && r->Ok_0.parts() == p,
                Err(e) => r == Err::<Inode, &'static str>(e),
            },
    {
        if ino == 0 || self.inodes_per_group == 0 || self.inode_size < 100 {
            return Err("ext2 bad inode");
        }
        let group: u32 = (ino - 1) / self.inodes_per_group;
        let idx: u32 = (ino - 1) % self.inodes_per_group;
        let fdb: u64 = self.first_data_block as u64 + 1;
        let bs: u64 = self.block_size as u64;
        assert(fdb * bs <= 0x1_0000_0000 * 0xFFFF_FFFF) by (nonlinear_arith)
            requires
                fdb <= 0x1_0000_0000,
                bs <= 0xFFFF_FFFF,
        ;
        assert(0 <= fdb * bs) by (nonlinear_arith)
            requires
                fdb >= 0,
                bs >= 0,
        ;
        let bgd_base: u64 = fdb * bs;
        if group as u64 * 32 > u64::MAX - bgd_base {
            proof {
                lemma_far(disk, bgd_base + group * 32, 32);
            }
            return Err("ext2 disk read");
        }
        let bgd = match disk_range(disk, bgd_base + group as u64 * 32, 32) {
            Ok(b) => b,
            Err(e) => { return Err(e); },
        };
        let table: u64 = load32(bgd.as_slice(), 8) as u64;
        let isz: u64 = self.inode_size as u64;
        let ix: u64 = idx as u64;
        assert(table * bs <= 0xFFFF_FFFF * 0xFFFF_FFFF) by (nonlinear_arith)
            requires
                table <= 0xFFFF_FFFF,
                bs <= 0xFFFF_FFFF,
        ;
        assert(ix * isz <= 0xFFFF_FFFF * 0xFFFF_FFFF) by (nonlinear_arith)
            requires
                ix <= 0xFFFF_FFFF,
                isz <= 0xFFFF_FFFF,
        ;
        if ix * isz > u64::MAX - table * bs {
            proof {
                lemma_far(disk, table * bs + ix * isz, isz as int);
            }
            return Err("ext2 disk read");
        }
        let raw = match disk_range(disk, table * bs + ix * isz, self.inode_size as usize) {
            Ok(b) => b,
            Err(e) => { return Err(e); },
        };
        let mut block: [u32; 15] = [0u32;15];
        let mut i: usize = 0;
        while i < 15
            invariant
                i <= 15,
                raw@.len() >= 100,
                forall|k: int|
                    0 <= k < i ==> #[trigger] block@[k] == crate::bytes::le32(raw@, 40 + 4 * k),
            decreases 15 - i,
        {
            block[i] = load32(raw.as_slice(), 40 + 4 * i);
            i = i + 1;
        }
        let node = Inode {
            mode: load16(raw.as_slice(), 0),
            size: load32(raw.as_slice(), 4) as u64,
            block,
        };
        assert(node.block@ =~= Seq::new(15, |k: int| crate::bytes::le32(raw@, 40 + 4 * k)));
        Ok(node)
    }

    /// Append one data block; block 0 is a hole.
    fn feed_block(&self, disk: &[u8], out: &mut Vec<u8>, bn: u32) -> (r: Result<(), &'static str>)
        ensures
            match feed(disk@, *self, old(out)@, bn) {
                Ok(o) => r is Ok && final(out)@ == o,
                Err(e) => r == Err::<(), &'static str>(e),
            },
    {
        if bn == 0 {
            let z = crate::bytes::zeroed(self.block_size as usize);
            crate::bytes::extend(out, z.as_slice());
            Ok(())
        } else {
            match self.block(disk, bn) {
                Ok(b) => {
                    crate::bytes::extend(out, b.as_slice());
                    Ok(())
                },
                Err(e) => Err(e),
            }
        }
    }

    /// Follow a single-indirect block.
    #[verifier::loop_isolation(false)]
    fn feed_indirect(&self, disk: &[u8], out: &mut Vec<u8>, ind_bn: u32, total: u64) -> (r: Result<
        (),
        &'static str,
    >)
        ensures
            match feed_ind(disk@, *self, old(out)@, ind_bn, total as int) {
                Ok(o) => r is Ok && final(out)@ == o,
                Err(e) => r == Err::<(), &'static str>(e),
            },
    {
        if ind_bn == 0 {
            let bs: u64 = self.block_size as u64;
            assert((bs / 4) * bs <= 0x3FFF_FFFF * 0xFFFF_FFFF) by (nonlinear_arith)
                requires
                    bs <= 0xFFFF_FFFF,
            ;
            let span: u64 = (bs / 4) * bs;
            let have: u64 = out.len() as u64;
            let missing: u64 = if have < total {
                total - have
            } else {
                0
            };
            let n: u64 = if span < missing {
                span
            } else {
                missing
            };
            append_zeros(out, n);
            return Ok(());
        }
        let ind = match self.block(disk, ind_bn) {
            Ok(b) => b,
            Err(e) => { return Err(e); },
        };
        let n: usize = ind.len() / 4;
        let ghost ptrs = words(ind@);
        let ghost out0 = out@;
        let mut k: usize = 0;
        while k < n
            invariant
                k <= n,
                n == ind@.len() / 4,
                ptrs == words(ind@),
                feed_list(disk@, *self, out0, ptrs, 0, total as int) == feed_list(
                    disk@,
                    *self,
                    out@,
                    ptrs,
                    k as int,
                    total as int,
                ),
            decreases n - k,
        {
            if out.len() as u64 >= total {
                return Ok(());
            }
            let bn: u32 = load32(ind.as_slice(), 4 * k);
            assert(bn == ptrs[k as int]);
            match self.feed_block(disk, out, bn) {
                Ok(()) => (),
                Err(e) => { return Err(e); },
            }
            k = k + 1;
        }
        Ok(())
    }

    /// The contents of the file behind `inode`.
    #[verifier::loop_isolation(false)]
    pub fn read_file(&self, disk: &[u8], inode: &Inode) -> (r: Result<Vec<u8>, &'static str>)
        ensures
            match file_data(disk@, *self, inode.size, inode.block@) {
                Ok(d) => r is Ok && r->Ok_0@ == d,
                Err(e) => r == Err::<Vec<u8>, &'static str>(e),
            },
    {
        let total: u64 = inode.size;
        let mut out: Vec<u8> = Vec::new();
        let ghost direct = inode.block@.take(12);
        let mut i: usize = 0;
        while i < 12 && (out.len() as u64) < total
            invariant
                i <= 12,
                total == inode.size,
                direct == inode.block@.take(12),
                feed_list(disk@, *self, Seq::empty(), direct, 0, total as int) == feed_list(
                    disk@,
                    *self,
                    out@,
                    direct,
                    i as int,
                    total as int,
                ),
            decreases 12 - i,
        {
            assert(direct[i as int] == inode.block@[i as int]);
            match self.feed_block(disk, &mut out, inode.block[i]) {
                Ok(()) => (),
                Err(e) => { return Err(e); },
            }
            i = i + 1;
        }
        if (out.len() as u64) < total {
            match self.feed_indirect(disk, &mut out, inode.block[12], total) {
                Ok(()) => (),
                Err(e) => { return Err(e); },
            }
        }
        if (out.len() as u64) < total && inode.block[13] != 0 {
            let dind = match self.block(disk, inode.block[13]) {
                Ok(b) => b,
                Err(e) => { return Err(e); },
            };
            let n: usize = dind.len() / 4;
            let ghost ptrs = words(dind@);
            let ghost out0 = out@;
            let mut k: usize = 0;
            while k < n && (out.len() as u64) < total
                invariant
                    k <= n,
                    n == dind@.len() / 4,
                    ptrs == words(dind@),
                    feed_ind_list(disk@, *self, out0, ptrs, 0, total as int) == feed_ind_list(
                        disk@,
                        *self,
                        out@,
                        ptrs,
                        k as int,
                        total as int,
                    ),
                decreases n - k,
            {
                let bn: u32 = load32(dind.as_slice(), 4 * k);
                assert(bn == ptrs[k as int]);
                match self.feed_indirect(disk, &mut out, bn, total) {
                    Ok(()) => (),
                    Err(e) => { return Err(e); },
                }
                k = k + 1;
            }
        }
        if (out.len() as u64) > total {
            out.truncate(total as usize);
        }
        Ok(out)
    }

    /// The inode that `name` has in directory `dir_ino`.
    fn lookup(&self, disk: &[u8], dir_ino: u32, name: &[u8]) -> (r: Result<
        Option<u32>,
        &'static str,
    >)
        ensures
            r == looked_up(disk@, *self, dir_ino, name@),
    {
        let node = match self.read_inode(disk, dir_ino) {
            Ok(n) => n,
            Err(e) => { return Err(e); },
        };
        let data = match self.read_file(disk, &node) {
            Ok(d) => d,
            Err(e) => { return Err(e); },
        };
        Ok(find_entry(data.as_slice(), name))
    }

    /// The entries of directory `dir_ino`, in the order of its records.
    pub fn read_dir(&self, disk: &[u8], dir_ino: u32) -> (r: Result<
        Vec<(u64, u8, Vec<u8>)>,
        &'static str,
    >)
        ensures
            match listed(disk@, *self, dir_ino) {
                Ok(es) => {
                    &&& r matches Ok(v) && entry_views(v@) == es
                    &&& forall|k: int| 0 <= k < r->Ok_0@.len() ==> (#[trigger] r->Ok_0@[k]).2@.len() <= 255
                },
                Err(e) => r == Err::<Vec<(u64, u8, Vec<u8>)>, &'static str>(e),
            },
    {
        let node = match self.read_inode(disk, dir_ino) {
            Ok(n) => n,
            Err(e) => { return Err(e); },
        };
        let data = match self.read_file(disk, &node) {
            Ok(d) => d,
            Err(e) => { return Err(e); },
        };
        Ok(list_entries(data.as_slice()))
    }

    /// The inode that an absolute path names.
    #[verifier::loop_isolation(false)]
    pub fn path_lookup(&self, disk: &[u8], path: &str) -> (r: Result<Option<u32>, &'static str>)
        ensures
            r == path_ino(disk@, *self, vstd::utf8::encode_utf8(path@)),
    {
        let comps = crate::text::components8(path.as_bytes(), 0x2F);
        let ghost cs = crate::text::texts8(comps@);
        let mut ino: u32 = ROOT_INO;
        let n: usize = comps.len();
        let mut k: usize = 0;
        while k < n
            invariant
                k <= n,
                n == comps@.len(),
                cs == crate::text::texts8(comps@),
                walk(disk@, *self, ROOT_INO, cs, 0) == walk(disk@, *self, ino, cs, k as int),
            decreases n - k,
        {
            assert(cs[k as int] == comps@[k as int]@);
            match self.lookup(disk, ino, comps[k].as_slice()) {
                Err(e) => { return Err(e); },
                Ok(None) => { return Ok(None); },
                Ok(Some(next)) => { ino = next; },
            }
            k = k + 1;
        }
        Ok(Some(ino))
    }

    /// The contents of the file at an absolute path.
    pub fn read_path(&self, disk: &[u8], path: &str) -> (r: Result<Option<Vec<u8>>, &'static str>)
        ensures
            match path_data(disk@, *self, vstd::utf8::encode_utf8(path@)) {
                Ok(Some(d)) => r matches Ok(Some(v)) && v@ == d,
                Ok(None) => r matches Ok(None),
                Err(e) => r == Err::<Option<Vec<u8>>, &'static str>(e),
            },
    {
        let ino: u32 = match self.path_lookup(disk, path) {
            Err(e) => { return Err(e); },
            Ok(None) => { return Ok(None); },
            Ok(Some(i)) => i,
        };
        let node = match self.read_inode(disk, ino) {
            Ok(n) => n,
            Err(e) => { return Err(e); },
        };
        match self.read_file(disk, &node) {
            Ok(d) => Ok(Some(d)),
            Err(e) => Err(e),
        }
    }
}

proof fn lemma_far(disk: &[u8], off: int, len: int)
    requires
        off > u64::MAX,
        len >= 0,
    ensures
        !range_ok(disk@, off, len),
{
    vstd::slice::axiom_spec_len(disk);
}

fn append_zeros(out: &mut Vec<u8>, n: u64)
    ensures
        final(out)@ == old(out)@ + crate::bytes::zeros(n as nat),
{
    let mut i: u64 = 0;
    assert(out@ =~= out@ + crate::bytes::zeros(0));
    while i < n
        invariant
            i <= n,
            out@ == old(out)@ + crate::bytes::zeros(i as nat),
        decreases n - i,
    {
        out.push(0);
        i = i + 1;
        assert(out@ =~= old(out)@ + crate::bytes::zeros(i as nat));
    }
}

/// The inode that `name` has among the directory records in `data`.
fn find_entry(data: &[u8], name: &[u8]) -> (r: Option<u32>)
    ensures
        r == dir_find(data@, 0, name@),
{
    let len: usize = data.len();
    let mut off: usize = 0;
    while len - off >= 8
        invariant
            len == data@.len(),
            dir_find(data@, 0, name@) == dir_find(data@, off as int, name@),
            off <= len,
        decreases len - off,
    {
        let ino: u32 = load32(data, off);
        let rec_len: usize = load16(data, off + 4) as usize;
        let name_len: usize = data[off + 6] as usize;
        if rec_len == 0 {
            return None;
        }
        if ino != 0 && len - off - 8 >= name_len {
            let got = crate::bytes::sub(data, off + 8, off + 8 + name_len);
            if crate::bytes::same(got.as_slice(), name) {
                return Some(ino);
            }
        }
        if rec_len > len - off {
            assert(dir_find(data@, off + rec_len, name@) is None);
            return None;
        }
        off = off + rec_len;
    }
    None
}

fn to_dirent_type(ft: u8) -> (r: u8)
    ensures
        r == dirent_type(ft),
{
    if ft == 1 {
        8
    } else if ft == 2 {
        4
    } else if ft == 3 {
        2
    } else if ft == 4 {
        6
    } else if ft == 5 {
        1
    } else if ft == 6 {
        12
    } else if ft == 7 {
        10
    } else {
        0
    }
}

/// The entries of the directory records in `data`.
fn list_entries(data: &[u8]) -> (r: Vec<(u64, u8, Vec<u8>)>)
    ensures
        entry_views(r@) == dir_entries(data@, 0),
        forall|k: int| 0 <= k < r@.len() ==> (#[trigger] r@[k]).2@.len() <= 255,
{
    let len: usize = data.len();
    let mut off: usize = 0;
    let mut r: Vec<(u64, u8, Vec<u8>)> = Vec::new();
    let ghost all = dir_entries(data@, 0);
    assert(entry_views(r@) + all =~= all);
    while len - off >= 8
        invariant
            len == data@.len(),
            all == dir_entries(data@, 0),
            all == entry_views(r@) + dir_entries(data@, off as int),
            forall|k: int| 0 <= k < r@.len() ==> (#[trigger] r@[k]).2@.len() <= 255,
            off <= len,
        decreases len - off,
    {
        let ino: u32 = load32(data, off);
        let rec_len: usize = load16(data, off + 4) as usize;
        let name_len: usize = data[off + 6] as usize;
        if rec_len == 0 {
            assert(entry_views(r@) + dir_entries(data@, off as int) =~= entry_views(r@));
            return r;
        }
        let ghost rest = dir_entries(data@, off + rec_len);
        if ino != 0 && len - off - 8 >= name_len {
            let name = crate::bytes::sub(data, off + 8, off + 8 + name_len);
            let e = (ino as u64, to_dirent_type(data[off + 7]), name);
            let ghost before = r@;
            r.push(e);
            assert(entry_views(r@) =~= entry_views(before).push((e.0, e.1, e.2@)));
            assert(entry_views(r@) + rest =~= entry_views(before) + (seq![(e.0, e.1, e.2@)] + rest));
        }
        if rec_len > len - off {
            assert(rest =~= Seq::empty());
            assert(entry_views(r@) + rest =~= entry_views(r@));
            return r;
        }
        off = off + rec_len;
    }
    assert(entry_views(r@) + dir_entries(data@, off as int) =~= entry_views(r@));
    r
}

proof fn lemma_walk_one_more(
    disk: Seq<u8>,
    fs: Ext2,
    ino: u32,
    comps: Seq<Seq<u8>>,
    name: Seq<u8>,
    k: int,
)
    requires
        0 <= k <= comps.len(),
    ensures
        walk(disk, fs, ino, comps.push(name), k) == (match walk(disk, fs, ino, comps, k) {
            Err(e) => Err(e),
            Ok(None) => Ok(None),
            Ok(Some(dir)) => looked_up(disk, fs, dir, name),
        }),
    decreases comps.len() - k,
{
    let more = comps.push(name);
    if k < comps.len() {
        assert(more[k] == comps[k]);
        match looked_up(disk, fs, ino, comps[k]) {
            Ok(Some(next)) => {
                lemma_walk_one_more(disk, fs, next, comps, name, k + 1);
            },
            _ => {},
        }
    } else {
        assert(more[k] == name);
        match looked_up(disk, fs, ino, name) {
            Ok(Some(next)) => {
                assert(walk(disk, fs, next, more, k + 1) == Ok::<Option<u32>, &'static str>(
                    Some(next),
                ));
            },
            _ => {},
        }
    }
}

/// A path is looked up component by component: what `path/name` names is what
/// `name` is in the directory that `path` names.
pub proof fn law_lookup_goes_component_by_component(
    disk: Seq<u8>,
    fs: Ext2,
    path: Seq<char>,
    name: Seq<char>,
)
    requires
        crate::text::clean(name, false),
    ensures
        path_ino(disk, fs, vstd::utf8::encode_utf8(path.push('/') + name)) == (match path_ino(
            disk,
            fs,
            vstd::utf8::encode_utf8(path),
        ) {
            Err(e) => Err(e),
            Ok(None) => Ok(None),
            Ok(Some(dir)) => looked_up(disk, fs, dir, vstd::utf8::encode_utf8(name)),
        }),
{
    let p = vstd::utf8::encode_utf8(path);
    let n = vstd::utf8::encode_utf8(name);
    assert forall|i: int| 0 <= i < name.len() implies #[trigger] name[i] != '/' by {
        assert(!crate::text::is_sep(name[i], false));
    }
    lemma_slash_bytes(path, name);
    paths::lemma_slash_utf8(name);
    paths::lemma_slash_parts8(p, n);
    paths::lemma_one_part8(n);
    let c = paths::parts8(p);
    assert(c + seq![n] =~= c.push(n));
    lemma_walk_one_more(disk, fs, ROOT_INO, c, n, 0);
}

proof fn lemma_slash_bytes(a: Seq<char>, b: Seq<char>)
    ensures
        vstd::utf8::encode_utf8(a.push('/') + b) == vstd::utf8::encode_utf8(a).push(0x2F)
            + vstd::utf8::encode_utf8(b),
{
    let slash = seq!['/'];
    assert(a.push('/') + b =~= a + slash + b);
    paths::lemma_utf8_concat(a + slash, b);
    paths::lemma_utf8_concat(a, slash);
    paths::lemma_slash_utf8(b);
    assert(vstd::utf8::encode_utf8(a) + seq![0x2Fu8] =~= vstd::utf8::encode_utf8(a).push(0x2F));
}

/// A slash more between two components, or at either end, changes nothing.
pub proof fn law_extra_slashes_change_nothing(disk: Seq<u8>, fs: Ext2, a: Seq<char>, b: Seq<char>)
    ensures
        path_ino(disk, fs, vstd::utf8::encode_utf8(a.push('/').push('/') + b)) == path_ino(
            disk,
            fs,
            vstd::utf8::encode_utf8(a.push('/') + b),
        ),
        path_ino(disk, fs, vstd::utf8::encode_utf8(seq!['/'] + b)) == path_ino(
            disk,
            fs,
            vstd::utf8::encode_utf8(b),
        ),
        path_ino(disk, fs, vstd::utf8::encode_utf8(a.push('/'))) == path_ino(
            disk,
            fs,
            vstd::utf8::encode_utf8(a),
        ),
{
    let x = vstd::utf8::encode_utf8(a);
    let y = vstd::utf8::encode_utf8(b);
    let e = Seq::<char>::empty();
    let none = Seq::<u8>::empty();
    paths::lemma_no_parts8();
    assert(vstd::utf8::encode_utf8(e) =~= none);
    lemma_slash_bytes(a, b);
    lemma_slash_bytes(a.push('/'), b);
    lemma_slash_bytes(a, e);
    lemma_slash_bytes(e, b);
    assert(a.push('/') + e =~= a.push('/'));
    assert(e.push('/') + b =~= seq!['/'] + b);
    assert(x.push(0x2F) + none =~= x.push(0x2F));
    paths::lemma_slash_parts8(x, y);
    paths::lemma_slash_parts8(x.push(0x2F), y);
    paths::lemma_slash_parts8(x, none);
    paths::lemma_slash_parts8(none, y);
    let nothing = Seq::<Seq<u8>>::empty();
    assert(paths::parts8(x) + nothing =~= paths::parts8(x));
    assert(nothing + paths::parts8(y) =~= paths::parts8(y));
}

/// The empty path and `/` are the root directory.
pub proof fn law_empty_path_is_the_root(disk: Seq<u8>, fs: Ext2)
    ensures
        path_ino(disk, fs, vstd::utf8::encode_utf8(""@)) == Ok::<Option<u32>, &'static str>(
            Some(2u32),
        ),
        path_ino(disk, fs, vstd::utf8::encode_utf8("/"@)) == Ok::<Option<u32>, &'static str>(
            Some(2u32),
        ),
{
    reveal_strlit("");
    reveal_strlit("/");
    let e = Seq::<char>::empty();
    assert(""@ =~= e);
    assert("/"@ =~= seq!['/'] + e);
    assert(vstd::utf8::encode_utf8(e) =~= Seq::<u8>::empty());
    paths::lemma_no_parts8();
    law_extra_slashes_change_nothing(disk, fs, e, e);
}

/// The first entry from `i` on with this name.
pub open spec fn first_named(es: Seq<(u64, u8, Seq<u8>)>, name: Seq<u8>, i: int) -> Option<u64>
    decreases es.len() - i,
{
    if i < 0 || i >= es.len() {
        None
    } else if es[i].2 == name {
        Some(es[i].0)
    } else {
        first_named(es, name, i + 1)
    }
}

proof fn lemma_first_of_rest(e: (u64, u8, Seq<u8>), es: Seq<(u64, u8, Seq<u8>)>, name: Seq<u8>, i: int)
    requires
        0 <= i,
    ensures
        first_named(seq![e] + es, name, i + 1) == first_named(es, name, i),
    decreases es.len() - i,
{
    if i < es.len() {
        assert((seq![e] + es)[i + 1] == es[i]);
        lemma_first_of_rest(e, es, name, i + 1);
    }
}

/// A name is looked up byte for byte, and the first live entry that has it
/// counts: a lookup agrees with the listing.
pub proof fn law_lookup_finds_the_first_listed_name(data: Seq<u8>, off: int, name: Seq<u8>)
    ensures
        match dir_find(data, off, name) {
            Some(ino) => first_named(dir_entries(data, off), name, 0) == Some(ino as u64),
            None => first_named(dir_entries(data, off), name, 0) is None,
        },
    decreases data.len() + 65536 - off,
{
    if off >= 0 && off + 8 <= data.len() && crate::bytes::le16(data, off + 4) != 0 {
        let ino = crate::bytes::le32(data, off);
        let rec_len = crate::bytes::le16(data, off + 4);
        let name_len = data[off + 6];
        let rest = dir_entries(data, off + rec_len);
        law_lookup_finds_the_first_listed_name(data, off + rec_len, name);
        if ino != 0 && off + 8 + name_len <= data.len() {
            let e = (
                ino as u64,
                dirent_type(data[off + 7]),
                data.subrange(off + 8, off + 8 + name_len),
            );
            lemma_first_of_rest(e, rest, name, 0);
            assert((seq![e] + rest)[0] == e);
        }
    }
}

} // verus!
