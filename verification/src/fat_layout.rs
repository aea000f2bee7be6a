//! Where a FAT volume keeps a file: what a read returns, byte by byte, said of
//! the disk itself.
use vstd::prelude::*;

use crate::bytes;
use crate::fat;
use crate::fat::Fat;
use crate::gpt;
use crate::text;

verus! {

/// The bytes of a cluster.
pub open spec fn cluster_bytes(f: Fat) -> int {
    512 * f.sec_per_clus
}

/// Where cluster `c` begins on the disk; the first one is number 2.
pub open spec fn cluster_at(f: Fat, c: int) -> int {
    (f.data_start_lba + (c - 2) * f.sec_per_clus) * 512
}

/// The table's entry for cluster `c`: four bytes, of which 28 bits count, or
/// two.
pub open spec fn table_entry(disk: Seq<u8>, f: Fat, c: int) -> int {
    if f.is_fat32 {
        (bytes::le32(disk, f.fat_start * 512 + 4 * c) % 0x1000_0000) as int
    } else {
        bytes::le16(disk, f.fat_start * 512 + 2 * c) as int
    }
}

/// The entry for cluster `c` lies in a whole sector of the disk.
pub open spec fn entry_on_disk(disk: Seq<u8>, f: Fat, c: int) -> bool {
    f.fat_start * 512 + (if f.is_fat32 {
        4 * c + 4
    } else {
        2 * c + 2
    }) <= disk.len() / 512 * 512
}

/// An entry that names no further cluster.
pub open spec fn ends_chain(f: Fat, v: int) -> bool {
    v < 2 || v >= (if f.is_fat32 {
        0x0FFF_FFF8int
    } else {
        0xFFF8int
    })
}

/// Cluster `c` lies in whole sectors of the disk.
pub open spec fn on_disk(disk: Seq<u8>, f: Fat, c: int) -> bool {
    2 <= c && cluster_at(f, c) + cluster_bytes(f) <= disk.len() / 512 * 512
}

/// Cluster `b` is the one that the table names behind `a`.
pub open spec fn follows(disk: Seq<u8>, f: Fat, a: int, b: int) -> bool {
    entry_on_disk(disk, f, a) && table_entry(disk, f, a) == b && !ends_chain(f, b)
}

/// The clusters `cs` lie on the disk and the table links each to the next.
pub open spec fn linked(disk: Seq<u8>, f: Fat, cs: Seq<u32>) -> bool {
    &&& cs.len() > 0
    &&& forall|k: int| 0 <= k < cs.len() ==> on_disk(disk, f, #[trigger] cs[k] as int)
    &&& forall|k: int, l: int|
        0 <= k && l == k + 1 && l < cs.len() ==> follows(
            disk,
            f,
            #[trigger] cs[k] as int,
            #[trigger] cs[l] as int,
        )
}

/// Byte `i` of what the clusters `cs` hold, one behind the other.
pub open spec fn byte_of(disk: Seq<u8>, f: Fat, cs: Seq<u32>, i: int) -> u8 {
    disk[cluster_at(f, cs[i / cluster_bytes(f)] as int) + i % cluster_bytes(f)]
}

/// Clusters lie one behind the other: each begins where the one before it ends,
/// and no two share a byte.
pub proof fn law_clusters_do_not_overlap(f: Fat, a: int, b: int)
    requires
        2 <= a < b,
    ensures
        cluster_at(f, a + 1) == cluster_at(f, a) + cluster_bytes(f),
        cluster_at(f, a) + cluster_bytes(f) <= cluster_at(f, b),
        cluster_at(f, 2) == f.data_start_lba * 512,
{
    let n = f.sec_per_clus as int;
    assert((a + 1 - 2) * n == (a - 2) * n + n) by (nonlinear_arith);
    assert((a - 2) * n + n <= (b - 2) * n) by (nonlinear_arith)
        requires
            a < b,
            0 <= n,
    ;
    assert((2 - 2) * n == 0) by (nonlinear_arith);
}

/// A read of a cluster gives the bytes that begin at its place on the disk.
pub proof fn law_cluster_is_read_at_its_place(disk: Seq<u8>, f: Fat, c: u32)
    requires
        on_disk(disk, f, c as int),
    ensures
        fat::cluster(disk, f, c) matches Ok(b) && b.len() == cluster_bytes(f) && forall|i: int|
            0 <= i < b.len() ==> #[trigger] b[i] == disk[cluster_at(f, c as int) + i],
{
    let n = f.sec_per_clus as int;
    let at = f.data_start_lba + (c - 2) * n;
    assert(0 <= (c - 2) * n) by (nonlinear_arith)
        requires
            c >= 2,
            n >= 0,
    ;
    assert((at + n) * 512 == at * 512 + 512 * n);
    assert(at + n <= disk.len() / 512);
}

/// The table says which cluster comes next, and where a chain ends.
pub proof fn law_table_names_the_next_cluster(disk: Seq<u8>, f: Fat, c: u32)
    requires
        entry_on_disk(disk, f, c as int),
    ensures
        ({
            let v = table_entry(disk, f, c as int);
            fat::next_of(disk, f, c) == Ok::<Option<u32>, &'static str>(
                if ends_chain(f, v) {
                    None
                } else {
                    Some(v as u32)
                },
            )
        }),
{
    let at: int = if f.is_fat32 {
        c * 4
    } else {
        c * 2
    };
    let lba = f.fat_start + at / 512;
    assert(lba * 512 + at % 512 == f.fat_start * 512 + at);
    assert(lba + 1 <= disk.len() / 512);
    let b = disk.subrange(lba * 512, (lba + 1) * 512);
    assert(gpt::sectors(disk, lba, 1, fat::NO_READ) == Ok::<Seq<u8>, &'static str>(b));
    if f.is_fat32 {
        let raw = bytes::le32(b, at % 512);
        assert(raw == bytes::le32(disk, f.fat_start * 512 + at));
        assert(raw & 0x0FFF_FFFFu32 == raw % 0x1000_0000u32) by (bit_vector);
    } else {
        assert(bytes::le16(b, at % 512) == bytes::le16(disk, f.fat_start * 512 + at));
    }
}

/// Reading on from the `k`-th cluster, with the clusters before it read.
proof fn lemma_chain(
    disk: Seq<u8>,
    f: Fat,
    cs: Seq<u32>,
    out: Seq<u8>,
    k: int,
    at_least: int,
    fuel: nat,
)
    requires
        linked(disk, f, cs),
        f.sec_per_clus > 0,
        0 <= k < cs.len(),
        out.len() == k * cluster_bytes(f),
        forall|i: int| 0 <= i < out.len() ==> #[trigger] out[i] == byte_of(disk, f, cs, i),
        fuel >= cs.len() - 1 - k,
        0 <= at_least <= cs.len() * cluster_bytes(f),
        at_least == 0 ==> entry_on_disk(disk, f, cs.last() as int) && ends_chain(
            f,
            table_entry(disk, f, cs.last() as int),
        ),
    ensures
        fat::chain(disk, f, out, cs[k], at_least, fuel) matches Ok(d) && d.len() >= at_least && (
        at_least == 0 ==> d.len() == cs.len() * cluster_bytes(f)) && forall|i: int|
            0 <= i < d.len() ==> #[trigger] d[i] == byte_of(disk, f, cs, i),
    decreases cs.len() - k,
{
    let z = cluster_bytes(f);
    law_cluster_is_read_at_its_place(disk, f, cs[k]);
    let b = fat::cluster(disk, f, cs[k])->Ok_0;
    let o = out + b;
    assert((k + 1) * z == k * z + z) by (nonlinear_arith);
    assert forall|i: int| 0 <= i < o.len() implies #[trigger] o[i] == byte_of(disk, f, cs, i) by {
        if i >= out.len() {
            assert(i / z == k && i % z == i - k * z) by (nonlinear_arith)
                requires
                    k * z <= i < k * z + z,
                    z > 0,
            ;
            assert(o[i] == b[i - out.len()]);
        } else {
            assert(o[i] == out[i]);
        }
    }
    if k + 1 < cs.len() {
        assert(follows(disk, f, cs[k] as int, cs[k + 1] as int));
        law_table_names_the_next_cluster(disk, f, cs[k]);
        lemma_chain(disk, f, cs, o, k + 1, at_least, (fuel - 1) as nat);
    } else if at_least == 0 {
        law_table_names_the_next_cluster(disk, f, cs[k]);
    }
}

/// A file's bytes are the bytes of its clusters on the disk, in the order in
/// which the table links them, cut to the size that its entry gives.
pub proof fn law_file_bytes_lie_in_its_clusters(
    disk: Seq<u8>,
    f: Fat,
    path: Seq<char>,
    size: u32,
    cs: Seq<u32>,
)
    requires
        linked(disk, f, cs),
        f.sec_per_clus > 0,
        0 < size <= cs.len() * cluster_bytes(f),
        cs.len() <= 0x0FFF_FFF8,
        fat::entry_along(
            disk,
            f,
            if f.is_fat32 {
                f.root_cluster
            } else {
                0
            },
            text::nonempty(text::pieces(path, true)),
            0,
        ) == Ok::<Option<(u32, u32, bool)>, &'static str>(Some((cs[0], size, false))),
    ensures
        fat::path_data(disk, f, path) matches Ok(Some(b)) && b.len() == size && forall|i: int|
            0 <= i < size ==> #[trigger] b[i] == disk[(f.data_start_lba + (cs[i / (512
                * f.sec_per_clus)] - 2) * f.sec_per_clus) * 512 + i % (512 * f.sec_per_clus)],
{
    let root = if f.is_fat32 {
        f.root_cluster
    } else {
        0
    };
    let comps = text::nonempty(text::pieces(path, true));
    assert(on_disk(disk, f, cs[0] as int));
    fat::law_read_gives_what_the_entry_says(disk, f, root, comps, 0);
    assert(0 * cluster_bytes(f) == 0) by (nonlinear_arith);
    lemma_chain(disk, f, cs, Seq::empty(), 0, size as int, fat::EOC32 as nat);
    let d = fat::chain(disk, f, Seq::empty(), cs[0], size as int, fat::EOC32 as nat)->Ok_0;
    let b = fat::path_data(disk, f, path)->Ok_0->0;
    assert forall|i: int| 0 <= i < size implies #[trigger] b[i] == byte_of(disk, f, cs, i) by {
        assert(b[i] == d[i]);
    }
}

/// A directory's entries are the bytes of all its clusters.
pub proof fn law_directory_lies_in_its_clusters(disk: Seq<u8>, f: Fat, cs: Seq<u32>)
    requires
        linked(disk, f, cs),
        f.sec_per_clus > 0,
        cs.len() <= 0x0FFF_FFF8,
        entry_on_disk(disk, f, cs.last() as int),
        ends_chain(f, table_entry(disk, f, cs.last() as int)),
    ensures
        fat::dir_data(disk, f, cs[0]) matches Ok(d) && d.len() == cs.len() * cluster_bytes(f)
            && forall|i: int| 0 <= i < d.len() ==> #[trigger] d[i] == byte_of(disk, f, cs, i),
{
    assert(on_disk(disk, f, cs[0] as int));
    assert(0 * cluster_bytes(f) == 0) by (nonlinear_arith);
    lemma_chain(disk, f, cs, Seq::empty(), 0, 0, fat::EOC32 as nat);
}

/// The root directory of a volume with 16-bit entries lies before its clusters.
pub proof fn law_fixed_root_lies_before_the_clusters(disk: Seq<u8>, f: Fat)
    requires
        !f.is_fat32,
        f.root_dir_lba + f.root_dir_sectors <= disk.len() / 512,
    ensures
        fat::dir_data(disk, f, 0) == Ok::<Seq<u8>, &'static str>(
            disk.subrange(
                f.root_dir_lba * 512,
                f.root_dir_lba * 512 + 512 * f.root_dir_sectors,
            ),
        ),
{
}

/// Slot `j` of a directory holds an entry in use: not deleted, no part of a long
/// name, and its name is text.
pub open spec fn in_use(d: Seq<u8>, j: int) -> bool {
    &&& d[32 * j] != 0 && d[32 * j] != 0xE5
    &&& d[32 * j + 11] & 0x0F != 0x0F
    &&& fat::short_name(d.subrange(32 * j, 32 * j + 32)) is Some
}

/// Slot `j` holds an entry in use whose name is `name` but for its case.
pub open spec fn bears(d: Seq<u8>, j: int, name: Seq<char>) -> bool {
    in_use(d, j) && text::lowered(fat::short_name(d.subrange(32 * j, 32 * j + 32))->0)
        == text::lowered(name)
}

/// A search for `name` goes on behind slot `j`.
pub open spec fn passed_over(d: Seq<u8>, j: int, name: Seq<char>) -> bool {
    d[32 * j] != 0 && !bears(d, j, name)
}

proof fn lemma_scan(d: Seq<u8>, i: int, j: int, name: Seq<char>)
    requires
        0 <= i <= j,
        32 * j + 32 <= d.len(),
        bears(d, j, name),
        forall|k: int| 0 <= k < j ==> #[trigger] passed_over(d, k, name),
    ensures
        fat::scanned(d, 32 * i, name) == Some(fat::target(d.subrange(32 * j, 32 * j + 32))),
    decreases j - i,
{
    let e = d.subrange(32 * i, 32 * i + 32);
    assert(e[0] == d[32 * i] && e[11] == d[32 * i + 11]);
    if i < j {
        assert(passed_over(d, i, name));
        lemma_scan(d, i + 1, j, name);
    }
}

/// A lookup finds the first entry that bears the name: its first cluster is
/// split over the two halves at 20 and 26, its size stands at 28, and bit 4 of
/// its attributes tells a directory.
pub proof fn law_lookup_finds_the_first_entry_of_that_name(d: Seq<u8>, j: int, name: Seq<char>)
    requires
        0 <= j,
        32 * j + 32 <= d.len(),
        bears(d, j, name),
        forall|k: int| 0 <= k < j ==> #[trigger] passed_over(d, k, name),
    ensures
        fat::scanned(d, 0, name) matches Some((c, size, dir)) && c == 0x1_0000 * bytes::le16(
            d,
            32 * j + 20,
        ) + bytes::le16(d, 32 * j + 26) && size == bytes::le32(d, 32 * j + 28) && dir == (d[32 * j
            + 11] / 16 % 2 == 1),
{
    lemma_scan(d, 0, j, name);
    let e = d.subrange(32 * j, 32 * j + 32);
    let hi: u16 = bytes::le16(e, 20);
    let lo: u16 = bytes::le16(e, 26);
    let a: u8 = e[11];
    assert(((hi as u32) << 16) | lo as u32 == 0x1_0000 * hi + lo) by (bit_vector);
    assert((a & 0x10 != 0) == (a / 16 % 2 == 1)) by (bit_vector);
}

/// A name that no entry before the end of the directory bears is not found.
pub proof fn law_lookup_stops_at_the_first_unused_entry(
    d: Seq<u8>,
    i: int,
    j: int,
    name: Seq<char>,
)
    requires
        0 <= i <= j,
        32 * j <= d.len(),
        32 * j + 32 > d.len() || d[32 * j] == 0,
        forall|k: int| 0 <= k < j ==> #[trigger] passed_over(d, k, name),
    ensures
        fat::scanned(d, 32 * i, name) is None,
    decreases j - i,
{
    let e = d.subrange(32 * i, 32 * i + 32);
    if 32 * i + 32 <= d.len() {
        assert(e[0] == d[32 * i] && e[11] == d[32 * i + 11]);
    }
    if i < j {
        assert(passed_over(d, i, name));
        law_lookup_stops_at_the_first_unused_entry(d, i + 1, j, name);
    }
}

/// The parts of a volume follow one another on the disk: the reserved sectors,
/// the copies of the table, the root directory of a volume with 16-bit entries,
/// and the clusters. The boot sector's bytes stand at their places on the disk.
pub proof fn law_parts_of_a_volume_follow_one_another(disk: Seq<u8>, part: u64)
    requires
        part < disk.len() / 512,
        disk.len() <= u64::MAX,
    ensures
        fat::opened(disk, part) matches Ok(f) ==> {
            let p = part * 512;
            let per_table = if bytes::le16(disk, p + 22) != 0 {
                bytes::le16(disk, p + 22) as int
            } else {
                bytes::le32(disk, p + 36) as int
            };
            let total = if bytes::le16(disk, p + 19) != 0 {
                bytes::le16(disk, p + 19) as int
            } else {
                bytes::le32(disk, p + 32) as int
            };
            &&& disk[p + 510] == 0x55 && disk[p + 511] == 0xAA
            &&& bytes::le16(disk, p + 11) == 512
            &&& f.sec_per_clus == disk[p + 13] && f.sec_per_clus > 0
            &&& f.fat_start == part + bytes::le16(disk, p + 14)
            &&& f.root_dir_lba == f.fat_start + disk[p + 16] * per_table
            &&& f.data_start_lba == f.root_dir_lba + f.root_dir_sectors
            &&& 512 * f.root_dir_sectors >= 32 * bytes::le16(disk, p + 17)
            &&& 512 * f.root_dir_sectors < 32 * bytes::le16(disk, p + 17) + 512
            &&& f.data_start_lba < part + total
            &&& f.is_fat32 <==> part + total - f.data_start_lba >= 65525 * f.sec_per_clus
            &&& f.is_fat32 ==> f.root_cluster == bytes::le32(disk, p + 44)
        },
{
    let p = part * 512;
    let b = disk.subrange(p, (part + 1) * 512);
    assert(gpt::sectors(disk, part as int, 1, fat::NO_READ) == Ok::<Seq<u8>, &'static str>(b));
    if fat::opened(disk, part) is Ok {
        let f = fat::opened(disk, part)->Ok_0;
        let per_table = if bytes::le16(disk, p + 22) != 0 {
            bytes::le16(disk, p + 22) as int
        } else {
            bytes::le32(disk, p + 36) as int
        };
        let total = if bytes::le16(disk, p + 19) != 0 {
            bytes::le16(disk, p + 19) as int
        } else {
            bytes::le32(disk, p + 32) as int
        };
        let n = disk[p + 16] as int;
        assert(0 <= n * per_table <= 255 * 0xFFFF_FFFF) by (nonlinear_arith)
            requires
                0 <= n <= 255,
                0 <= per_table <= 0xFFFF_FFFF,
        ;
        let s = disk[p + 13] as int;
        let first = bytes::le16(b, 14) + n * per_table + (bytes::le16(b, 17) * 32 + 511) / 512;
        assert((total - first) / s >= 65525 <==> total - first >= 65525 * s) by (nonlinear_arith)
            requires
                s > 0,
        ;
    }
}

} // verus!
