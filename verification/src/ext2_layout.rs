//! Where an ext2 volume keeps a file: what a read returns, byte by byte, said
//! of the disk itself.
use vstd::prelude::*;

use crate::bytes;
use crate::ext2;
use crate::ext2::Ext2;

verus! {

/// The block numbers that one block of pointers holds.
pub open spec fn per_block(fs: Ext2) -> int {
    fs.block_size as int / 4
}

/// Pointer `k` of the block of pointers with number `b`; a block that is not
/// there points at nothing.
pub open spec fn pointer(disk: Seq<u8>, fs: Ext2, b: int, k: int) -> int {
    if b == 0 {
        0
    } else {
        bytes::le32(disk, b * fs.block_size + 4 * k) as int
    }
}

/// The number of the block that holds part `j` of a file: the first 12 stand
/// in the inode, the next are listed by the block that `block[12]` names, and
/// the rest by the blocks that the block at `block[13]` lists. 0 is a hole.
pub open spec fn nth_block(disk: Seq<u8>, fs: Ext2, block: Seq<u32>, j: int) -> int {
    let n = per_block(fs);
    if j < 12 {
        block[j] as int
    } else if j < 12 + n {
        pointer(disk, fs, block[12] as int, j - 12)
    } else {
        pointer(
            disk,
            fs,
            pointer(disk, fs, block[13] as int, (j - 12 - n) / n),
            (j - 12 - n) % n,
        )
    }
}

/// Block `b` lies in whole sectors of the disk, or stands for a hole.
pub open spec fn there(disk: Seq<u8>, fs: Ext2, b: int) -> bool {
    b == 0 || (b + 1) * fs.block_size <= disk.len() / 512 * 512
}

/// Byte `i` of a file.
pub open spec fn byte_of(disk: Seq<u8>, fs: Ext2, block: Seq<u32>, i: int) -> u8 {
    let b = nth_block(disk, fs, block, i / fs.block_size as int);
    if b == 0 {
        0
    } else {
        disk[b * fs.block_size + i % fs.block_size as int]
    }
}

/// Every block that the first `size` bytes of a file need is on the disk, those
/// that list others among them; a file that needs the second list has it.
pub open spec fn is_whole(disk: Seq<u8>, fs: Ext2, size: int, block: Seq<u32>) -> bool {
    let n = per_block(fs);
    let z = fs.block_size as int;
    &&& forall|j: int|
        0 <= j && j * z < size ==> there(disk, fs, #[trigger] nth_block(disk, fs, block, j))
    &&& 12 * z < size ==> there(disk, fs, block[12] as int)
    &&& (12 + n) * z < size ==> block[13] != 0 && there(disk, fs, block[13] as int)
    &&& forall|q: int|
        0 <= q < n && (12 + n + q * n) * z < size ==> there(
            disk,
            fs,
            #[trigger] pointer(disk, fs, block[13] as int, q),
        )
}

/// The bytes of `o` are those of the file.
spec fn right(disk: Seq<u8>, fs: Ext2, block: Seq<u32>, o: Seq<u8>) -> bool {
    forall|i: int| 0 <= i < o.len() ==> #[trigger] o[i] == byte_of(disk, fs, block, i)
}

/// `o` holds the first `m` parts of the file, or `total` bytes of it.
spec fn reached(disk: Seq<u8>, fs: Ext2, block: Seq<u32>, o: Seq<u8>, m: int, total: int) -> bool {
    right(disk, fs, block, o) && (o.len() == m * fs.block_size || o.len() >= total)
}

proof fn lemma_part(z: int, m: int, i: int)
    requires
        0 < z,
        m * z <= i < m * z + z,
    ensures
        i / z == m,
        i % z == i - m * z,
        (m + 1) * z == m * z + z,
{
    assert(i / z == m && i % z == i - m * z && (m + 1) * z == m * z + z) by (nonlinear_arith)
        requires
            0 < z,
            m * z <= i < m * z + z,
    ;
}

proof fn lemma_read_block(disk: Seq<u8>, fs: Ext2, b: u32)
    requires
        b != 0,
        there(disk, fs, b as int),
    ensures
        ext2::block_of(disk, fs, b) == Ok::<Seq<u8>, &'static str>(
            disk.subrange(b * fs.block_size, b * fs.block_size + fs.block_size),
        ),
        0 <= b * fs.block_size,
        b * fs.block_size + fs.block_size <= disk.len(),
{
    let z = fs.block_size as int;
    assert((b + 1) * z == b * z + z && 0 <= b * z) by (nonlinear_arith)
        requires
            0 <= z,
            0 <= b,
    ;
}

proof fn lemma_feed(disk: Seq<u8>, fs: Ext2, block: Seq<u32>, out: Seq<u8>, m: int, bn: u32)
    requires
        fs.block_size > 0,
        0 <= m,
        right(disk, fs, block, out),
        out.len() == m * fs.block_size,
        nth_block(disk, fs, block, m) == bn,
        there(disk, fs, bn as int),
    ensures
        ext2::feed(disk, fs, out, bn) matches Ok(o) && right(disk, fs, block, o) && o.len() == (m
            + 1) * fs.block_size,
{
    let z = fs.block_size as int;
    if bn != 0 {
        lemma_read_block(disk, fs, bn);
    }
    let o = ext2::feed(disk, fs, out, bn)->Ok_0;
    lemma_part(z, m, m * z);
    assert forall|i: int| 0 <= i < o.len() implies #[trigger] o[i] == byte_of(
        disk,
        fs,
        block,
        i,
    ) by {
        if i >= out.len() {
            lemma_part(z, m, i);
        } else {
            assert(o[i] == out[i]);
        }
    }
}

proof fn lemma_feed_list(
    disk: Seq<u8>,
    fs: Ext2,
    block: Seq<u32>,
    out: Seq<u8>,
    ptrs: Seq<u32>,
    k: int,
    first: int,
    total: int,
)
    requires
        fs.block_size > 0,
        0 <= k <= ptrs.len(),
        0 <= first,
        is_whole(disk, fs, total, block),
        forall|t: int|
            0 <= t < ptrs.len() ==> #[trigger] ptrs[t] == nth_block(disk, fs, block, first + t),
        reached(disk, fs, block, out, first + k, total),
    ensures
        ext2::feed_list(disk, fs, out, ptrs, k, total) matches Ok(o) && reached(
            disk,
            fs,
            block,
            o,
            first + ptrs.len(),
            total,
        ),
    decreases ptrs.len() - k,
{
    if k < ptrs.len() && out.len() < total {
        let bn = ptrs[k];
        assert(there(disk, fs, nth_block(disk, fs, block, first + k)));
        lemma_feed(disk, fs, block, out, first + k, bn);
        let o = ext2::feed(disk, fs, out, bn)->Ok_0;
        lemma_feed_list(disk, fs, block, o, ptrs, k + 1, first, total);
    }
}

/// What one block of pointers adds, where it lists the parts from `first` on.
proof fn lemma_feed_ind(
    disk: Seq<u8>,
    fs: Ext2,
    block: Seq<u32>,
    out: Seq<u8>,
    bn: u32,
    first: int,
    total: int,
)
    requires
        fs.block_size > 0,
        fs.block_size % 4 == 0,
        0 <= first,
        is_whole(disk, fs, total, block),
        there(disk, fs, bn as int),
        forall|t: int|
            0 <= t < per_block(fs) ==> #[trigger] nth_block(disk, fs, block, first + t) == pointer(
                disk,
                fs,
                bn as int,
                t,
            ),
        right(disk, fs, block, out),
        out.len() == first * fs.block_size,
        out.len() < total,
    ensures
        ext2::feed_ind(disk, fs, out, bn, total) matches Ok(o) && reached(
            disk,
            fs,
            block,
            o,
            first + per_block(fs),
            total,
        ),
{
    let z = fs.block_size as int;
    let n = per_block(fs);
    if bn == 0 {
        let o = ext2::feed_ind(disk, fs, out, bn, total)->Ok_0;
        assert((first + n) * z == first * z + n * z) by (nonlinear_arith);
        assert(0 <= n * z) by (nonlinear_arith)
            requires
                0 <= n,
                0 <= z,
        ;
        assert forall|i: int| 0 <= i < o.len() implies #[trigger] o[i] == byte_of(
            disk,
            fs,
            block,
            i,
        ) by {
            if i >= out.len() {
                let j = i / z;
                assert(first <= j < first + n) by (nonlinear_arith)
                    requires
                        j == i / z,
                        first * z <= i < (first + n) * z,
                        0 < z,
                ;
                assert(nth_block(disk, fs, block, first + (j - first)) == 0);
            } else {
                assert(o[i] == out[i]);
            }
        }
    } else {
        lemma_read_block(disk, fs, bn);
        let b = disk.subrange(bn * z, bn * z + z);
        let ws = ext2::words(b);
        assert(ws.len() == n);
        assert forall|t: int| 0 <= t < ws.len() implies #[trigger] ws[t] == nth_block(
            disk,
            fs,
            block,
            first + t,
        ) by {
            assert(bytes::le32(b, 4 * t) == bytes::le32(disk, bn * z + 4 * t));
        }
        lemma_feed_list(disk, fs, block, out, ws, 0, first, total);
    }
}

proof fn lemma_feed_ind_list(
    disk: Seq<u8>,
    fs: Ext2,
    block: Seq<u32>,
    out: Seq<u8>,
    ptrs: Seq<u32>,
    k: int,
    total: int,
)
    requires
        fs.block_size > 0,
        fs.block_size % 4 == 0,
        is_whole(disk, fs, total, block),
        ptrs.len() == per_block(fs),
        0 <= k <= ptrs.len(),
        forall|t: int|
            0 <= t < ptrs.len() ==> #[trigger] ptrs[t] == pointer(disk, fs, block[13] as int, t),
        reached(
            disk,
            fs,
            block,
            out,
            12 + per_block(fs) + k * per_block(fs),
            total,
        ),
    ensures
        ext2::feed_ind_list(disk, fs, out, ptrs, k, total) matches Ok(o) && reached(
            disk,
            fs,
            block,
            o,
            12 + per_block(fs) + per_block(fs) * per_block(fs),
            total,
        ),
    decreases ptrs.len() - k,
{
    let n = per_block(fs);
    if k < ptrs.len() && out.len() < total {
        let first = 12 + n + k * n;
        let bn = ptrs[k];
        assert(bn == pointer(disk, fs, block[13] as int, k));
        assert(0 <= k * n) by (nonlinear_arith)
            requires
                0 <= k,
                0 <= n,
        ;
        assert((k + 1) * n == k * n + n) by (nonlinear_arith);
        assert forall|t: int| 0 <= t < n implies #[trigger] nth_block(disk, fs, block, first + t)
            == pointer(disk, fs, bn as int, t) by {
            lemma_part(n, k, k * n + t);
            assert(first + t - 12 - n == k * n + t);
        }
        lemma_feed_ind(disk, fs, block, out, bn, first, total);
        let o = ext2::feed_ind(disk, fs, out, bn, total)->Ok_0;
        lemma_feed_ind_list(disk, fs, block, o, ptrs, k + 1, total);
    }
}

/// A file is read in full: it has exactly `size` bytes, and byte `i` is byte
/// `i % block_size` of the disk block that the direct pointers, the indirect
/// block and the double-indirect block, in this order, name for
/// `i / block_size`. A part without a block reads as zeros.
pub proof fn law_file_is_read_in_full(disk: Seq<u8>, fs: Ext2, size: u64, block: Seq<u32>)
    requires
        fs.block_size > 0,
        fs.block_size % 4 == 0,
        block.len() == 15,
        size <= (12 + per_block(fs) + per_block(fs) * per_block(fs)) * fs.block_size,
        is_whole(disk, fs, size as int, block),
    ensures
        ext2::file_data(disk, fs, size, block) matches Ok(d) && d.len() == size && forall|i: int|
            0 <= i < size ==> #[trigger] d[i] == byte_of(disk, fs, block, i),
{
    let z = fs.block_size as int;
    let n = per_block(fs);
    let total = size as int;
    assert(0 * z == 0) by (nonlinear_arith);
    lemma_feed_list(disk, fs, block, Seq::empty(), block.take(12), 0, 0, total);
    let a = ext2::feed_list(disk, fs, Seq::empty(), block.take(12), 0, total)->Ok_0;
    if a.len() < total {
        lemma_feed_ind(disk, fs, block, a, block[12], 12, total);
        let b = ext2::feed_ind(disk, fs, a, block[12], total)->Ok_0;
        if b.len() < total {
            assert(0 * n == 0) by (nonlinear_arith);
            lemma_read_block(disk, fs, block[13]);
            let d = disk.subrange(block[13] * z, block[13] * z + z);
            let ws = ext2::words(d);
            assert forall|t: int| 0 <= t < ws.len() implies #[trigger] ws[t] == pointer(
                disk,
                fs,
                block[13] as int,
                t,
            ) by {
                assert(bytes::le32(d, 4 * t) == bytes::le32(disk, block[13] * z + 4 * t));
            }
            lemma_feed_ind_list(disk, fs, block, b, ws, 0, total);
        }
    }
}

/// Where inode `ino` lies: the groups' descriptors follow the superblock's
/// block, 32 bytes each, and name the table that holds the inodes of the group
/// in order.
pub open spec fn inode_place(disk: Seq<u8>, fs: Ext2, ino: int) -> int {
    let group = (ino - 1) / fs.inodes_per_group as int;
    let table = bytes::le32(disk, (fs.first_data_block + 1) * fs.block_size + 32 * group + 8);
    table * fs.block_size + (ino - 1) % fs.inodes_per_group as int * fs.inode_size
}

/// An inode is read from its place in its group's table: the mode first, the
/// size at 4, and the fifteen block numbers from 40 on.
pub proof fn law_inode_lies_in_the_table_of_its_group(disk: Seq<u8>, fs: Ext2, ino: u32)
    requires
        ino > 0,
        fs.inodes_per_group > 0,
        fs.inode_size >= 100,
        (fs.first_data_block + 1) * fs.block_size + 32 * ((ino - 1) / fs.inodes_per_group as int)
            + 32 <= disk.len() / 512 * 512,
        inode_place(disk, fs, ino as int) + fs.inode_size <= disk.len() / 512 * 512,
    ensures
        ext2::inode_at(disk, fs, ino) matches Ok((mode, size, block)) && ({
            let at = inode_place(disk, fs, ino as int);
            &&& mode == bytes::le16(disk, at)
            &&& size == bytes::le32(disk, at + 4)
            &&& block.len() == 15
            &&& forall|i: int|
                0 <= i < 15 ==> #[trigger] block[i] == bytes::le32(disk, at + 40 + 4 * i)
        }),
{
    let per = fs.inodes_per_group as int;
    let z = fs.block_size as int;
    let group = (ino - 1) / per;
    let idx = (ino - 1) % per;
    let g = (fs.first_data_block + 1) * z + group * 32;
    assert(0 <= group) by (nonlinear_arith)
        requires
            group == (ino - 1) / per,
            per > 0,
            ino > 0,
    ;
    assert(0 <= (fs.first_data_block + 1) * z) by (nonlinear_arith)
        requires
            0 <= z,
    ;
    let bgd = disk.subrange(g, g + 32);
    let table = bytes::le32(bgd, 8);
    assert(table == bytes::le32(disk, g + 8));
    let at = table * z + idx * fs.inode_size;
    assert(0 <= idx) by (nonlinear_arith)
        requires
            idx == (ino - 1) % per,
            per > 0,
    ;
    assert(0 <= table * z && 0 <= idx * fs.inode_size) by (nonlinear_arith)
        requires
            0 <= z,
            0 <= table,
            0 <= idx,
            0 <= fs.inode_size,
    ;
    assert(at == inode_place(disk, fs, ino as int));
    let raw = disk.subrange(at, at + fs.inode_size);
    assert forall|i: int| 0 <= i < 15 implies #[trigger] bytes::le32(raw, 40 + 4 * i)
        == bytes::le32(disk, at + 40 + 4 * i) by {}
}

/// A mounted volume has its superblock 1024 bytes into the disk. Its blocks
/// have 1024 bytes, doubled as often as the superblock says.
pub proof fn law_superblock_gives_the_geometry(disk: Seq<u8>)
    requires
        disk.len() >= 2048,
    ensures
        ext2::opened(disk) is Ok ==> disk[1080] == 0x53 && disk[1081] == 0xEF,
        ext2::opened(disk) matches Ok(fs) ==> {
            let twice = bytes::le32(disk, 1048);
            &&& twice == 0 ==> fs.block_size == 1024
            &&& twice == 1 ==> fs.block_size == 2048
            &&& twice == 2 ==> fs.block_size == 4096
            &&& twice == 3 ==> fs.block_size == 8192
            &&& fs.first_data_block == bytes::le32(disk, 1044)
            &&& fs.inodes_per_group == bytes::le32(disk, 1064)
            &&& bytes::le32(disk, 1100) == 0 ==> fs.inode_size == 128
            &&& bytes::le32(disk, 1100) > 0 ==> fs.inode_size == bytes::le16(disk, 1112)
        },
        disk[1080] == 0x53 && disk[1081] == 0xEF && bytes::le32(disk, 1048) < 32
            ==> ext2::opened(disk) is Ok,
{
    let sb = disk.subrange(1024, 2048);
    assert(ext2::range(disk, 1024, 1024) == Ok::<Seq<u8>, &'static str>(sb));
    assert(1024u32 << 0u32 == 1024 && 1024u32 << 1u32 == 2048 && 1024u32 << 2u32 == 4096 && 1024u32
        << 3u32 == 8192) by (bit_vector);
}

/// What `path` names is read from the inode that it leads to.
pub proof fn law_path_gives_the_bytes_of_its_inode(
    disk: Seq<u8>,
    fs: Ext2,
    path: Seq<u8>,
    ino: u32,
    size: u64,
    block: Seq<u32>,
)
    requires
        ext2::path_ino(disk, fs, path) == Ok::<Option<u32>, &'static str>(Some(ino)),
        ext2::inode_at(disk, fs, ino) matches Ok((_, s, b)) && s == size && b == block,
        fs.block_size > 0,
        fs.block_size % 4 == 0,
        block.len() == 15,
        size <= (12 + per_block(fs) + per_block(fs) * per_block(fs)) * fs.block_size,
        is_whole(disk, fs, size as int, block),
    ensures
        ext2::path_data(disk, fs, path) matches Ok(Some(d)) && d.len() == size && forall|i: int|
            0 <= i < size ==> #[trigger] d[i] == byte_of(disk, fs, block, i),
{
    law_file_is_read_in_full(disk, fs, size, block);
}

/// The directory's records begin at `at`, one behind the other, and each is in
/// use and holds its whole name.
pub open spec fn is_directory(data: Seq<u8>, at: Seq<int>) -> bool {
    &&& at.len() > 0 && at[0] == 0
    &&& forall|i: int|
        0 <= i < at.len() ==> 0 <= #[trigger] at[i] && bytes::le32(data, at[i]) != 0
            && bytes::le16(data, at[i] + 4) > 0 && at[i] + 8 + data[at[i] + 6] <= data.len()
    &&& forall|i: int, j: int|
        0 <= i && j == i + 1 && j < at.len() ==> #[trigger] at[j] == #[trigger] at[i] + bytes::le16(
            data,
            at[i] + 4,
        )
    &&& at.last() + bytes::le16(data, at.last() + 4) == data.len()
}

/// The name in the record at `p`.
pub open spec fn name_at(data: Seq<u8>, p: int) -> Seq<u8> {
    data.subrange(p + 8, p + 8 + data[p + 6])
}

proof fn lemma_entries(data: Seq<u8>, at: Seq<int>, i: int)
    requires
        is_directory(data, at),
        0 <= i < at.len(),
    ensures
        ({
            let es = ext2::dir_entries(data, at[i]);
            &&& es.len() == at.len() - i
            &&& forall|k: int|
                #![trigger at[k]]
                i <= k < at.len() ==> es[k - i].0 == bytes::le32(data, at[k]) && es[k - i].2
                    == name_at(data, at[k])
        }),
    decreases at.len() - i,
{
    let p = at[i];
    let es = ext2::dir_entries(data, p);
    let rest = ext2::dir_entries(data, p + bytes::le16(data, p + 4));
    if i + 1 < at.len() {
        assert(at[i + 1] == at[i] + bytes::le16(data, at[i] + 4));
        lemma_entries(data, at, i + 1);
        assert forall|k: int|
            #![trigger at[k]]
            i <= k < at.len() implies es[k - i].0 == bytes::le32(data, at[k]) && es[k - i].2
            == name_at(data, at[k]) by {
            if k > i {
                assert(es[k - i] == rest[k - (i + 1)]);
            }
        }
    } else {
        assert(at.last() == at[i]);
        assert(rest =~= Seq::empty());
    }
}

/// A listing has one entry for each record, in their order, with its inode and
/// its name.
pub proof fn law_listing_has_every_record(data: Seq<u8>, at: Seq<int>)
    requires
        is_directory(data, at),
    ensures
        ({
            let es = ext2::dir_entries(data, 0);
            &&& es.len() == at.len()
            &&& forall|k: int|
                #![trigger at[k]]
                0 <= k < at.len() ==> es[k].0 == bytes::le32(data, at[k]) && es[k].2 == name_at(
                    data,
                    at[k],
                )
        }),
{
    lemma_entries(data, at, 0);
    assert(at[0] == 0);
    let es = ext2::dir_entries(data, 0);
    assert forall|k: int|
        #![trigger at[k]]
        0 <= k < at.len() implies es[k].0 == bytes::le32(data, at[k]) && es[k].2 == name_at(
        data,
        at[k],
    ) by {
        assert(es[k - 0].0 == bytes::le32(data, at[k]));
    }
}

proof fn lemma_find(data: Seq<u8>, at: Seq<int>, i: int, k: int)
    requires
        is_directory(data, at),
        0 <= i <= k < at.len(),
        forall|j: int| i <= j < k ==> name_at(data, #[trigger] at[j]) != name_at(data, at[k]),
    ensures
        ext2::dir_find(data, at[i], name_at(data, at[k])) == Some(bytes::le32(data, at[k])),
    decreases k - i,
{
    let p = at[i];
    if i < k {
        assert(at[i + 1] == at[i] + bytes::le16(data, at[i] + 4));
        lemma_find(data, at, i + 1, k);
        assert(name_at(data, at[i]) != name_at(data, at[k]));
    }
}

/// A lookup finds each record by its name; where two have the same name, the
/// first.
pub proof fn law_lookup_finds_each_record(data: Seq<u8>, at: Seq<int>, k: int)
    requires
        is_directory(data, at),
        0 <= k < at.len(),
        forall|j: int| 0 <= j < k ==> name_at(data, #[trigger] at[j]) != name_at(data, at[k]),
    ensures
        ext2::dir_find(data, 0, name_at(data, at[k])) == Some(bytes::le32(data, at[k])),
{
    lemma_find(data, at, 0, k);
}

} // verus!
