//! GUID partition tables: find a partition by its type.
//!
//! The table's own block 0 lies at `base_lba` of the disk, and the block
//! numbers inside it count from there.
use vstd::prelude::*;

use crate::bytes;
use crate::bytes::{load32, load64};

verus! {

pub const SECTOR: u64 = 512;

/// The type of an EFI system partition, as it lies on disk.
pub const ESP_TYPE_GUID: [u8; 16] = [
    0x28,
    0x73,
    0x2A,
    0xC1,
    0x1F,
    0xF8,
    0xD2,
    0x11,
    0xBA,
    0x4B,
    0x00,
    0xA0,
    0xC9,
    0x3E,
    0xC9,
    0x3B,
];

/// `n` whole sectors from `lba` on; `what` where the disk does not have them.
pub open spec fn sectors(disk: Seq<u8>, lba: int, n: int, what: &'static str) -> Result<
    Seq<u8>,
    &'static str,
> {
    if lba + n <= disk.len() / 512 {
        Ok(disk.subrange(lba * 512, (lba + n) * 512))
    } else {
        Err(what)
    }
}

/// Read whole sectors off the disk.
pub fn read_sectors(disk: &[u8], lba: u64, n: u32, what: &'static str) -> (r: Result<
    Vec<u8>,
    &'static str,
>)
    ensures
        match sectors(disk@, lba as int, n as int, what) {
            Ok(b) => r is Ok && r->Ok_0@ == b,
            Err(e) => r == Err::<Vec<u8>, &'static str>(e),
        },
{
    let have: u64 = disk.len() as u64 / SECTOR;
    if lba > have || n as u64 > have - lba {
        return Err(what);
    }
    Ok(
        crate::bytes::sub(
            disk,
            (lba * SECTOR) as usize,
            ((lba + n as u64) * SECTOR) as usize,
        ),
    )
}

pub const NO_READ: &'static str = "gpt disk read";

/// The first of the entries from `i` on that has the type `want` and a start.
pub open spec fn entry_of(arr: Seq<u8>, esize: int, count: int, i: int, want: Seq<u8>) -> Option<u64>
    decreases count - i,
{
    if i >= count {
        None
    } else if arr.subrange(i * esize, i * esize + 16) == want && bytes::le64(arr, i * esize + 32)
        != 0 {
        Some(bytes::le64(arr, i * esize + 32))
    } else {
        entry_of(arr, esize, count, i + 1, want)
    }
}

/// The eight bytes a table's header starts with.
pub open spec fn signature() -> Seq<u8> {
    seq![0x45u8, 0x46, 0x49, 0x20, 0x50, 0x41, 0x52, 0x54]
}

/// Where the first partition of type `want` starts on the disk.
pub open spec fn partition(disk: Seq<u8>, base_lba: u64, want: Seq<u8>) -> Result<
    Option<u64>,
    &'static str,
> {
    match sectors(disk, base_lba + 1, 1, NO_READ) {
        Err(e) => Err(e),
        Ok(hdr) => {
            let entry_lba = bytes::le64(hdr, 72);
            let count = bytes::le32(hdr, 80);
            let esize = bytes::le32(hdr, 84);
            if hdr.take(8) != signature() || esize < 128 || count == 0 || count > 512 {
                Ok(None)
            } else {
                let n = (count * esize + 511) / 512;
                match sectors(disk, base_lba + entry_lba, n, NO_READ) {
                    Err(e) => Err(e),
                    Ok(arr) => match entry_of(arr, esize as int, count as int, 0, want) {
                        Some(start) => Ok(Some(base_lba.wrapping_add(start))),
                        None => Ok(None),
                    },
                }
            }
        },
    }
}

/// Find the first partition of type `want`.
pub fn find_partition(disk: &[u8], base_lba: u64, want: &[u8; 16]) -> (r: Result<
    Option<u64>,
    &'static str,
>)
    ensures
        r == partition(disk@, base_lba, want@),
{
    let total: usize = disk.len();
    if base_lba == u64::MAX {
        return Err(NO_READ);
    }
    let hdr = match read_sectors(disk, base_lba + 1, 1, NO_READ) {
        Ok(b) => b,
        Err(e) => { return Err(e); },
    };
    let h = hdr.as_slice();
    let magic: [u8; 8] = [0x45, 0x46, 0x49, 0x20, 0x50, 0x41, 0x52, 0x54];
    let head = crate::bytes::sub(h, 0, 8);
    assert(head@ =~= hdr@.take(8));
    assert(magic@ =~= signature());
    let entry_lba: u64 = load64(h, 72);
    let count: u32 = load32(h, 80);
    let esize: u32 = load32(h, 84);
    if !crate::bytes::same(head.as_slice(), magic.as_slice()) || esize < 128 || count == 0 || count
        > 512 {
        return Ok(None);
    }
    assert(0 <= count * esize <= 512 * 0xFFFF_FFFF) by (nonlinear_arith)
        requires
            0 <= count <= 512,
            0 <= esize <= 0xFFFF_FFFF,
    ;
    let all: u64 = count as u64 * esize as u64;
    let n: u64 = (all + 511) / 512;
    let at: u64 = match base_lba.checked_add(entry_lba) {
        Some(v) => v,
        None => { return Err(NO_READ); },
    };
    let arr = match read_sectors(disk, at, n as u32, NO_READ) {
        Ok(b) => b,
        Err(e) => { return Err(e); },
    };
    let a = arr.as_slice();
    let mut i: u32 = 0;
    while i < count
        invariant
            i <= count,
            count <= 512,
            128 <= esize,
            a@ == arr@,
            arr@.len() == n * 512,
            n == (count * esize + 511) / 512,
            arr@.len() <= usize::MAX,
            entry_of(arr@, esize as int, count as int, 0, want@) == entry_of(
                arr@,
                esize as int,
                count as int,
                i as int,
                want@,
            ),
            partition(disk@, base_lba, want@) == match entry_of(
                arr@,
                esize as int,
                count as int,
                0,
                want@,
            ) {
                Some(start) => Ok::<Option<u64>, &'static str>(Some(base_lba.wrapping_add(start))),
                None => Ok(None),
            },
        decreases count - i,
    {
        assert(i * esize + esize <= count * esize) by (nonlinear_arith)
            requires
                i < count,
                0 <= esize,
        ;
        assert(0 <= i * esize) by (nonlinear_arith)
            requires
                0 <= i,
                0 <= esize,
        ;
        let o: usize = i as usize * esize as usize;
        let kind = crate::bytes::sub(a, o, o + 16);
        assert(kind@ =~= arr@.subrange(i * esize, i * esize + 16));
        if crate::bytes::same(kind.as_slice(), want.as_slice()) {
            let start: u64 = load64(a, o + 32);
            if start != 0 {
                return Ok(Some(base_lba.wrapping_add(start)));
            }
        }
        i = i + 1;
    }
    Ok(None)
}

/// Find the EFI system partition.
pub fn find_esp(disk: &[u8], base_lba: u64) -> (r: Result<Option<u64>, &'static str>)
    ensures
        r == partition(disk@, base_lba, ESP_TYPE_GUID@),
{
    find_partition(disk, base_lba, &ESP_TYPE_GUID)
}

} // verus!
