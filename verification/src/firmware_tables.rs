//! The tables that firmware and disks describe a machine with: what is read
//! from them, said of their own bytes.
use vstd::prelude::*;

use crate::acpi;
use crate::acpi::{Cpu, Info, IoApic, IrqOverride};
use crate::bytes;
use crate::gpt;

verus! {

// --- partition tables ---

/// Where entry `k` of the partition table at `base` lies on the disk: the
/// header is in the sector behind `base` and says where the entries begin and
/// how long one is.
pub open spec fn partition_entry(disk: Seq<u8>, base: int, k: int) -> int {
    let header = (base + 1) * 512;
    (base + bytes::le64(disk, header + 72)) * 512 + k * bytes::le32(disk, header + 84)
}

/// How many entries the table at `base` has.
pub open spec fn partition_entries(disk: Seq<u8>, base: int) -> int {
    bytes::le32(disk, (base + 1) * 512 + 80) as int
}

/// Entry `k` is in use and has this type.
pub open spec fn is_partition(disk: Seq<u8>, base: int, k: int, kind: Seq<u8>) -> bool {
    let at = partition_entry(disk, base, k);
    &&& forall|i: int| 0 <= i < 16 ==> disk[at + i] == #[trigger] kind[i]
    &&& bytes::le64(disk, at + 32) != 0
}

/// A table with a valid header lies whole on the disk.
pub open spec fn has_table(disk: Seq<u8>, base: int) -> bool {
    let header = (base + 1) * 512;
    &&& base + 2 <= disk.len() / 512
    &&& disk[header] == 0x45 && disk[header + 1] == 0x46 && disk[header + 2] == 0x49 && disk[header
        + 3] == 0x20 && disk[header + 4] == 0x50 && disk[header + 5] == 0x41 && disk[header + 6]
        == 0x52 && disk[header + 7] == 0x54
    &&& 0 < partition_entries(disk, base) <= 512
    &&& bytes::le32(disk, header + 84) >= 128
    &&& base + bytes::le64(disk, header + 72) + (partition_entries(disk, base) * bytes::le32(
        disk,
        header + 84,
    ) + 511) / 512 <= disk.len() / 512
}

proof fn lemma_entry_of(
    disk: Seq<u8>,
    base: int,
    arr: Seq<u8>,
    from: int,
    esize: int,
    count: int,
    i: int,
    kind: Seq<u8>,
)
    requires
        kind.len() == 16,
        esize >= 128,
        0 <= i <= count,
        0 <= from,
        from + arr.len() <= disk.len(),
        count * esize <= arr.len(),
        arr == disk.subrange(from, from + arr.len()),
        forall|k: int| #[trigger] partition_entry(disk, base, k) == from + k * esize,
    ensures
        ({
            let r = gpt::entry_of(arr, esize, count, i, kind);
            &&& forall|k: int|
                i <= k < count && #[trigger] is_partition(disk, base, k, kind) && (forall|j: int|
                    i <= j < k ==> !#[trigger] is_partition(disk, base, j, kind)) ==> r == Some(
                    bytes::le64(disk, partition_entry(disk, base, k) + 32),
                )
            &&& (forall|k: int| i <= k < count ==> !#[trigger] is_partition(disk, base, k, kind))
                ==> r is None
        }),
    decreases count - i,
{
    if i < count {
        let o = i * esize;
        assert(0 <= o && o + esize <= count * esize) by (nonlinear_arith)
            requires
                0 <= i < count,
                esize >= 128,
                o == i * esize,
        ;
        let at = partition_entry(disk, base, i);
        assert(at == from + o);
        let id = arr.subrange(o, o + 16);
        assert(bytes::le64(arr, o + 32) == bytes::le64(disk, at + 32));
        assert((id == kind) == (forall|x: int| 0 <= x < 16 ==> disk[at + x] == #[trigger] kind[x]))
            by {
            if forall|x: int| 0 <= x < 16 ==> disk[at + x] == #[trigger] kind[x] {
                assert forall|x: int| 0 <= x < 16 implies id[x] == kind[x] by {
                    assert(disk[at + x] == kind[x]);
                }
                assert(id =~= kind);
            }
            if id == kind {
                assert forall|x: int| 0 <= x < 16 implies disk[at + x] == #[trigger] kind[x] by {
                    assert(id[x] == arr[o + x]);
                }
            }
        }
        assert(is_partition(disk, base, i, kind) == (id == kind && bytes::le64(arr, o + 32) != 0));
        lemma_entry_of(disk, base, arr, from, esize, count, i + 1, kind);
    }
}

/// The search for a partition finds the first entry in use that has the type,
/// and gives where it starts on the disk; it finds nothing where there is none.
pub proof fn law_first_partition_of_a_type_is_found(
    disk: Seq<u8>,
    base: u64,
    kind: Seq<u8>,
    k: int,
)
    requires
        kind.len() == 16,
        has_table(disk, base as int),
        0 <= k <= partition_entries(disk, base as int),
        forall|j: int| 0 <= j < k ==> !#[trigger] is_partition(disk, base as int, j, kind),
    ensures
        k < partition_entries(disk, base as int) && is_partition(disk, base as int, k, kind) ==> {
            let start = bytes::le64(disk, partition_entry(disk, base as int, k) + 32);
            base + start <= u64::MAX ==> gpt::partition(disk, base, kind) == Ok::<
                Option<u64>,
                &'static str,
            >(Some((base + start) as u64))
        },
        k == partition_entries(disk, base as int) ==> gpt::partition(disk, base, kind) == Ok::<
            Option<u64>,
            &'static str,
        >(None),
{
    let h = (base + 1) * 512;
    let hdr = disk.subrange(h, h + 512);
    assert(gpt::sectors(disk, base + 1, 1, gpt::NO_READ) == Ok::<Seq<u8>, &'static str>(hdr));
    assert(hdr.take(8) =~= gpt::signature());
    let lba = bytes::le64(hdr, 72);
    let count = bytes::le32(hdr, 80) as int;
    let esize = bytes::le32(hdr, 84) as int;
    assert(lba == bytes::le64(disk, h + 72));
    assert(count == bytes::le32(disk, h + 80));
    assert(esize == bytes::le32(disk, h + 84));
    let n = (count * esize + 511) / 512;
    assert(0 <= count * esize) by (nonlinear_arith)
        requires
            0 <= count,
            0 <= esize,
    ;
    let from = (base + lba) * 512;
    let arr = disk.subrange(from, from + n * 512);
    assert((base + lba + n) * 512 == from + n * 512);
    assert forall|k: int| #[trigger]
        partition_entry(disk, base as int, k) == from + k * esize by {}
    lemma_entry_of(disk, base as int, arr, from, esize, count, 0, kind);
}

// --- interrupt controllers ---

/// The entries of the table at `base` with `total` bytes begin at `at`, one
/// behind the other, behind a head of 44 bytes; each is long enough for its
/// kind, and all lie in memory.
pub open spec fn is_madt(m: Seq<u8>, base: int, total: int, at: Seq<int>) -> bool {
    &&& 0 <= base && base + total + 16 <= m.len()
    &&& at.len() > 0 && at[0] == 44
    &&& forall|k: int|
        0 <= k < at.len() ==> 44 <= #[trigger] at[k] && m[base + at[k] + 1] >= 2 && at[k] + m[base
            + at[k] + 1] <= total
    &&& forall|k: int, l: int|
        0 <= k && l == k + 1 && l < at.len() ==> #[trigger] at[l] == #[trigger] at[k] + m[base
            + at[k] + 1]
    &&& at.last() + m[base + at.last() + 1] == total
}

/// The processor that the entry at `e` describes, if it describes one that can
/// be used: by its 8-bit number (kind 0) or its 32-bit one (kind 9).
pub open spec fn describes_cpu(m: Seq<u8>, e: int, c: Cpu) -> bool {
    ||| m[e] == 0 && bytes::le32(m, e + 4) % 4 != 0 && c.apic_id == m[e + 3] && c.enabled == (
    bytes::le32(m, e + 4) % 2 == 1)
    ||| m[e] == 9 && bytes::le32(m, e + 8) % 4 != 0 && c.apic_id == bytes::le32(m, e + 4)
        && c.enabled == (bytes::le32(m, e + 8) % 2 == 1)
}

pub open spec fn describes_io(m: Seq<u8>, e: int, c: IoApic) -> bool {
    m[e] == 1 && c.id == m[e + 2] && c.address == bytes::le32(m, e + 4) && c.gsi_base
        == bytes::le32(m, e + 8)
}

pub open spec fn describes_override(m: Seq<u8>, e: int, c: IrqOverride) -> bool {
    m[e] == 2 && c.source == m[e + 3] && c.gsi == bytes::le32(m, e + 4) && c.flags == bytes::le16(
        m,
        e + 8,
    )
}

proof fn lemma_flags(f: u32)
    ensures
        (f & 1 != 0 || f & 2 != 0) == (f % 4 != 0),
        (f & 1 != 0) == (f % 2 == 1),
{
    assert((f & 1 != 0 || f & 2 != 0) == (f % 4 != 0) && (f & 1 != 0) == (f % 2 == 1))
        by (bit_vector);
}

/// What the entries from `k` on add: nothing that was known is lost, whatever
/// an entry describes is there, and whatever is new was described by one.
spec fn adds(m: Seq<u8>, base: int, at: Seq<int>, k: int, i: Info, r: Info) -> bool {
    &&& i.cpus.is_prefix_of(r.cpus)
    &&& i.io_apics.is_prefix_of(r.io_apics)
    &&& i.overrides.is_prefix_of(r.overrides)
    &&& forall|j: int, c: Cpu|
        k <= j < at.len() && #[trigger] describes_cpu(m, base + at[j], c) ==> r.cpus.contains(c)
    &&& forall|j: int, c: IoApic|
        k <= j < at.len() && #[trigger] describes_io(m, base + at[j], c) ==> r.io_apics.contains(c)
    &&& forall|j: int, c: IrqOverride|
        k <= j < at.len() && #[trigger] describes_override(m, base + at[j], c)
            ==> r.overrides.contains(c)
    &&& forall|x: int|
        i.cpus.len() <= x < r.cpus.len() ==> exists|j: int|
            k <= j < at.len() && describes_cpu(m, base + #[trigger] at[j], #[trigger] r.cpus[x])
}

proof fn lemma_prefix_contains<A>(a: Seq<A>, b: Seq<A>, x: A)
    requires
        a.is_prefix_of(b),
        a.contains(x),
    ensures
        b.contains(x),
{
    let i = choose|i: int| 0 <= i < a.len() && a[i] == x;
    assert(b[i] == x);
}

/// One entry read.
proof fn lemma_entry(m: Seq<u8>, e: int, i: Info)
    ensures
        ({
            let r = acpi::entry_read(m, e, i);
            &&& i.cpus.is_prefix_of(r.cpus)
            &&& i.io_apics.is_prefix_of(r.io_apics)
            &&& i.overrides.is_prefix_of(r.overrides)
            &&& forall|c: Cpu| #[trigger] describes_cpu(m, e, c) ==> r.cpus.contains(c)
            &&& forall|c: IoApic| #[trigger] describes_io(m, e, c) ==> r.io_apics.contains(c)
            &&& forall|c: IrqOverride| #[trigger]
                describes_override(m, e, c) ==> r.overrides.contains(c)
            &&& r.cpus.len() <= i.cpus.len() + 1
            &&& r.cpus.len() > i.cpus.len() ==> describes_cpu(m, e, r.cpus.last())
        }),
{
    let r = acpi::entry_read(m, e, i);
    lemma_flags(bytes::le32(m, e + 4));
    lemma_flags(bytes::le32(m, e + 8));
    assert forall|c: Cpu| #[trigger] describes_cpu(m, e, c) implies r.cpus.contains(c) by {
        assert(r.cpus.last() == c);
        assert(r.cpus[r.cpus.len() - 1] == c);
    }
    assert forall|c: IoApic| #[trigger] describes_io(m, e, c) implies r.io_apics.contains(c) by {
        assert(r.io_apics[r.io_apics.len() - 1] == c);
    }
    assert forall|c: IrqOverride| #[trigger] describes_override(m, e, c) implies r.overrides.contains(
        c,
    ) by {
        assert(r.overrides[r.overrides.len() - 1] == c);
    }
}

proof fn lemma_entries(m: Seq<u8>, base: int, total: int, at: Seq<int>, k: int, i: Info)
    requires
        is_madt(m, base, total, at),
        0 <= k < at.len(),
    ensures
        acpi::entries_read(m, base, total, at[k], i) matches Ok(r) && adds(m, base, at, k, i, r),
    decreases at.len() - k,
{
    let e = base + at[k];
    let next = acpi::entry_read(m, e, i);
    lemma_entry(m, e, i);
    if k + 1 < at.len() {
        assert(at[k + 1] == at[k] + m[base + at[k] + 1]);
        lemma_entries(m, base, total, at, k + 1, next);
        let r = acpi::entries_read(m, base, total, at[k + 1], next)->Ok_0;
        assert forall|j: int, c: Cpu|
            k <= j < at.len() && #[trigger] describes_cpu(m, base + at[j], c) implies r.cpus.contains(
            c,
        ) by {
            if j == k {
                lemma_prefix_contains(next.cpus, r.cpus, c);
            }
        }
        assert forall|j: int, c: IoApic|
            k <= j < at.len() && #[trigger] describes_io(m, base + at[j], c) implies r.io_apics.contains(
            c,
        ) by {
            if j == k {
                lemma_prefix_contains(next.io_apics, r.io_apics, c);
            }
        }
        assert forall|j: int, c: IrqOverride|
            k <= j < at.len() && #[trigger] describes_override(m, base + at[j], c)
            implies r.overrides.contains(c) by {
            if j == k {
                lemma_prefix_contains(next.overrides, r.overrides, c);
            }
        }
        assert forall|x: int| i.cpus.len() <= x < r.cpus.len() implies exists|j: int|
            k <= j < at.len() && describes_cpu(
                m,
                base + #[trigger] at[j],
                #[trigger] r.cpus[x],
            ) by {
            if x < next.cpus.len() {
                assert(r.cpus[x] == next.cpus[x]);
                assert(describes_cpu(m, base + at[k], r.cpus[x]));
            } else {
                let j = choose|j: int|
                    k + 1 <= j < at.len() && describes_cpu(
                        m,
                        base + #[trigger] at[j],
                        r.cpus[x],
                    );
                assert(describes_cpu(m, base + at[j], r.cpus[x]));
            }
        }
    } else {
        assert(at.last() == at[k]);
        assert(acpi::entries_read(m, base, total, total, next) == Ok::<Info, &'static str>(next));
        assert forall|x: int| i.cpus.len() <= x < next.cpus.len() implies exists|j: int|
            k <= j < at.len() && describes_cpu(
                m,
                base + #[trigger] at[j],
                #[trigger] next.cpus[x],
            ) by {
            assert(describes_cpu(m, base + at[k], next.cpus[x]));
        }
    }
}

/// Reading the table of interrupt controllers gives every processor that can be
/// used, and no other, every I/O controller and every override that any of its
/// entries describes.
pub proof fn law_every_controller_is_found(m: Seq<u8>, base: int, at: Seq<int>, i: Info)
    requires
        is_madt(m, base, bytes::le32(m, base + 4) as int, at),
        i.cpus.len() == 0,
    ensures
        acpi::madt_read(m, base, i) matches Ok(r) && (forall|k: int, c: Cpu|
            0 <= k < at.len() && #[trigger] describes_cpu(m, base + at[k], c) ==> r.cpus.contains(
                c,
            )) && (forall|k: int, c: IoApic|
            0 <= k < at.len() && #[trigger] describes_io(m, base + at[k], c)
                ==> r.io_apics.contains(c)) && (forall|k: int, c: IrqOverride|
            0 <= k < at.len() && #[trigger] describes_override(m, base + at[k], c)
                ==> r.overrides.contains(c)) && forall|x: int|
            0 <= x < r.cpus.len() ==> exists|k: int|
                0 <= k < at.len() && describes_cpu(
                    m,
                    base + #[trigger] at[k],
                    #[trigger] r.cpus[x],
                ),
{
    let total = bytes::le32(m, base + 4) as int;
    assert(at[0] == 44);
    lemma_entries(
        m,
        base,
        total,
        at,
        0,
        Info { local_apic_addr: bytes::le32(m, base + 36) as u64, ..i },
    );
}

/// Whether the table that pointer `k` of a root table leads to is the table of
/// interrupt controllers; the pointers follow a head of 36 bytes and have eight
/// bytes in the newer table, four in the older.
pub open spec fn leads_to_madt(m: Seq<u8>, root: int, wide: bool, k: int) -> bool {
    let p = if wide {
        bytes::le64(m, root + 36 + 8 * k) as int
    } else {
        bytes::le32(m, root + 36 + 4 * k) as int
    };
    m[p] == 0x41 && m[p + 1] == 0x50 && m[p + 2] == 0x49 && m[p + 3] == 0x43
}

proof fn lemma_search(m: Seq<u8>, root: int, wide: bool, n: int, i: int, k: int)
    requires
        0 <= i <= k < n,
        0 <= root,
        root + 36 + n * (if wide {
            8int
        } else {
            4
        }) <= m.len(),
        forall|j: int| 0 <= j <= k ==> #[trigger] acpi::pointer(m, root, wide, j) + 4 <= m.len(),
        leads_to_madt(m, root, wide, k),
        forall|j: int| 0 <= j < k ==> !#[trigger] leads_to_madt(m, root, wide, j),
    ensures
        acpi::madt_from(m, root, wide, n, i) == Ok::<Option<int>, &'static str>(
            Some(acpi::pointer(m, root, wide, k)),
        ),
    decreases k - i,
{
    assert(acpi::pointer(m, root, wide, i) + 4 <= m.len());
    assert(i * 8 == 8 * i && i * 4 == 4 * i);
    if i < k {
        assert(!leads_to_madt(m, root, wide, i));
        lemma_search(m, root, wide, n, i + 1, k);
    }
}

/// The root table's first pointer to a table of interrupt controllers counts;
/// the newer root table is used where the firmware has one.
pub proof fn law_root_table_leads_to_the_controllers(
    m: Seq<u8>,
    rsdp: int,
    root: int,
    wide: bool,
    n: int,
    k: int,
)
    requires
        0 <= rsdp,
        rsdp + 36 <= m.len(),
        m.subrange(rsdp, rsdp + 8) == acpi::rsdp_signature(),
        wide == (m[rsdp + 15] >= 2 && bytes::le64(m, rsdp + 24) != 0),
        root == (if wide {
            bytes::le64(m, rsdp + 24) as int
        } else {
            bytes::le32(m, rsdp + 16) as int
        }),
        root + 36 <= m.len(),
        bytes::le32(m, root + 4) == 36 + n * (if wide {
            8int
        } else {
            4
        }),
        root + bytes::le32(m, root + 4) <= m.len(),
        0 <= k < n,
        forall|j: int| 0 <= j <= k ==> #[trigger] acpi::pointer(m, root, wide, j) + 4 <= m.len(),
        leads_to_madt(m, root, wide, k),
        forall|j: int| 0 <= j < k ==> !#[trigger] leads_to_madt(m, root, wide, j),
    ensures
        acpi::tables_read(m, rsdp) == acpi::madt_read(
            m,
            acpi::pointer(m, root, wide, k),
            Info {
                revision: m[rsdp + 15],
                local_apic_addr: 0,
                cpus: Seq::empty(),
                io_apics: Seq::empty(),
                overrides: Seq::empty(),
            },
        ),
{
    lemma_search(m, root, wide, n, 0, k);
}

} // verus!
