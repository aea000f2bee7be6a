//! What a staged PE image looks like, said of the file's own bytes.
use vstd::prelude::*;

use crate::bytes;
use crate::pe;

verus! {

/// Where the PE signature lies.
pub open spec fn pe_at(file: Seq<u8>) -> int {
    bytes::le32(file, 60) as int
}

/// How many sections the file has.
pub open spec fn sections(file: Seq<u8>) -> int {
    bytes::le16(file, pe_at(file) + 6) as int
}

/// The table entry of section `k`: the table follows the optional header.
pub open spec fn entry_at(file: Seq<u8>, k: int) -> int {
    pe_at(file) + 24 + bytes::le16(file, pe_at(file) + 20) + 40 * k
}

/// `VirtualSize`, `VirtualAddress`, `SizeOfRawData` and `PointerToRawData` of
/// section `k`.
pub open spec fn virtual_size(file: Seq<u8>, k: int) -> int {
    bytes::le32(file, entry_at(file, k) + 8) as int
}

pub open spec fn virtual_address(file: Seq<u8>, k: int) -> int {
    bytes::le32(file, entry_at(file, k) + 12) as int
}

pub open spec fn raw_size(file: Seq<u8>, k: int) -> int {
    bytes::le32(file, entry_at(file, k) + 16) as int
}

pub open spec fn raw_pointer(file: Seq<u8>, k: int) -> int {
    bytes::le32(file, entry_at(file, k) + 20) as int
}

/// The file holds byte `i` of section `k`.
pub open spec fn in_file(file: Seq<u8>, k: int, i: int) -> bool {
    0 <= i < raw_size(file, k) && i < virtual_size(file, k) && raw_pointer(file, k) + i
        < file.len()
}

/// Section `k` puts a byte of the file at `x` of the image.
#[verifier::opaque]
pub open spec fn fills(file: Seq<u8>, k: int, x: int) -> bool {
    in_file(file, k, x - virtual_address(file, k))
}

/// The same, of a table that begins at `tbl`.
spec fn lays(file: Seq<u8>, s: int, x: int) -> bool {
    let i = x - bytes::le32(file, s + 12);
    0 <= i < bytes::le32(file, s + 16) && i < bytes::le32(file, s + 8) && bytes::le32(file, s + 20)
        + i < file.len()
}

spec fn laid(file: Seq<u8>, s: int, x: int) -> u8 {
    file[bytes::le32(file, s + 20) + (x - bytes::le32(file, s + 12))]
}

proof fn lemma_one(file: Seq<u8>, img: Seq<u8>, s: int)
    requires
        pe::seg_at(file, s).rva + pe::seg_at(file, s).mem_size <= img.len(),
    ensures
        pe::with_section(file, img, s).len() == img.len(),
        forall|x: int|
            0 <= x < img.len() ==> #[trigger] pe::with_section(file, img, s)[x] == (if lays(
                file,
                s,
                x,
            ) {
                laid(file, s, x)
            } else {
                img[x]
            }),
{
    let vsize = bytes::le32(file, s + 8) as int;
    let raw = bytes::le32(file, s + 16) as int;
    let pos = bytes::le32(file, s + 20) as int;
    let avail = if file.len() > pos {
        file.len() - pos
    } else {
        0
    };
    let n = pe::min3(raw, vsize, avail);
    if n > 0 {
        assert(file.subrange(pos, pos + n).len() == n);
    }
}

spec fn step(tbl: int, k: int) -> int {
    tbl + k * 40
}

/// Byte `x` of the image once the first `n` sections are in place.
proof fn lemma_place(file: Seq<u8>, img: Seq<u8>, tbl: int, n: nat, x: int)
    requires
        0 <= x < img.len(),
        pe::place(file, img, tbl, n) is Ok,
    ensures
        ({
            let (b, segs) = pe::place(file, img, tbl, n)->Ok_0;
            &&& b.len() == img.len()
            &&& segs.len() == n
            &&& forall|k: int| 0 <= k < n ==> #[trigger] segs[k] == pe::seg_at(file, step(tbl, k))
            &&& forall|k: int|
                0 <= k < n && lays(file, #[trigger] step(tbl, k), x) && (forall|j: int|
                    k < j < n ==> !lays(file, #[trigger] step(tbl, j), x)) ==> b[x] == laid(
                    file,
                    step(tbl, k),
                    x,
                )
            &&& (forall|j: int| 0 <= j < n ==> !lays(file, #[trigger] step(tbl, j), x)) ==> b[x]
                == img[x]
        }),
    decreases n,
{
    if n > 0 {
        lemma_place(file, img, tbl, (n - 1) as nat, x);
        let (c, segs) = pe::place(file, img, tbl, (n - 1) as nat)->Ok_0;
        let s = step(tbl, n - 1);
        assert(s == tbl + (n - 1) * 40);
        lemma_one(file, c, s);
        let (b, more) = pe::place(file, img, tbl, n)->Ok_0;
        assert(b[x] == if lays(file, s, x) {
            laid(file, s, x)
        } else {
            c[x]
        });
        if lays(file, s, x) {
            assert(!(forall|j: int| 0 <= j < n ==> !lays(file, #[trigger] step(tbl, j), x)));
        }
        assert forall|k: int|
            0 <= k < n && lays(file, #[trigger] step(tbl, k), x) && (forall|j: int|
                k < j < n ==> !lays(file, #[trigger] step(tbl, j), x)) implies b[x] == laid(
            file,
            step(tbl, k),
            x,
        ) by {
            if k < n - 1 {
                assert(!lays(file, step(tbl, n - 1), x));
            }
        }
    }
}

/// The headers of a file that is accepted, by their places.
proof fn lemma_header(file: Seq<u8>)
    requires
        pe::header(file) is Ok,
    ensures
        ({
            let h = pe::header(file)->Ok_0;
            let p = pe_at(file);
            &&& h.num_sections == bytes::le16(file, p + 6)
            &&& h.sect_tbl == entry_at(file, 0)
            &&& h.entry_rva == bytes::le32(file, p + 40)
            &&& h.image_base == bytes::le64(file, p + 48)
            &&& h.size_of_image == bytes::le32(file, p + 80)
            &&& h.size_of_headers == bytes::le32(file, p + 84)
            &&& h.dll_chars == bytes::le16(file, p + 94)
            &&& h.export == pe::dir_at(file, p + 136, bytes::le32(file, p + 132) as int, 0)
            &&& h.import == pe::dir_at(file, p + 136, bytes::le32(file, p + 132) as int, 1)
            &&& h.reloc == pe::dir_at(file, p + 136, bytes::le32(file, p + 132) as int, 5)
            &&& h.tls == pe::dir_at(file, p + 136, bytes::le32(file, p + 132) as int, 9)
            &&& h.image_base > 0 && h.size_of_image > 0
        }),
{
}

/// Data directory `i`, where the header counts that many.
pub open spec fn directory(file: Seq<u8>, i: int) -> (u32, u32) {
    let at = pe_at(file) + 136 + 8 * i;
    if i < bytes::le32(file, pe_at(file) + 132) {
        (bytes::le32(file, at), bytes::le32(file, at + 4))
    } else {
        (0, 0)
    }
}

/// A staged image has the size, the entry point and the directories of its
/// headers, and one segment for each section.
pub proof fn law_staged_image_is_what_its_headers_say(file: Seq<u8>, want: Option<u64>)
    requires
        pe::staged(file, want) is Ok,
        want matches Some(b) ==> b + 0x1000_0000 <= u64::MAX,
    ensures
        ({
            let s = pe::staged(file, want)->Ok_0;
            let p = pe_at(file);
            &&& file[0] == 0x4D && file[1] == 0x5A
            &&& file[p] == 0x50 && file[p + 1] == 0x45
            &&& s.size_of_image == bytes::le32(file, p + 80)
            &&& s.img.len() == s.size_of_image
            &&& s.entry == s.load_base + bytes::le32(file, p + 40)
            &&& s.export == directory(file, 0)
            &&& s.import == directory(file, 1)
            &&& want matches Some(b) ==> s.load_base == b
            &&& want is None && directory(file, 5).1 == 0 ==> s.load_base == bytes::le64(
                file,
                p + 48,
            )
            &&& s.segs.len() == sections(file)
            &&& forall|k: int|
                0 <= k < sections(file) ==> (#[trigger] s.segs[k]).rva == virtual_address(file, k)
                    && s.segs[k].mem_size >= virtual_size(file, k) && s.segs[k].mem_size >= raw_size(
                    file,
                    k,
                ) && (s.segs[k].mem_size == virtual_size(file, k) || s.segs[k].mem_size == raw_size(
                    file,
                    k,
                ))
        }),
{
    lemma_header(file);
    let h = pe::header(file)->Ok_0;
    let tbl = h.sect_tbl as int;
    let blank = pe::blank_image(file, h);
    let n = h.num_sections as nat;
    lemma_place(file, blank, tbl, n, 0);
    let (img, segs) = pe::place(file, blank, tbl, n)->Ok_0;
    lemma_moved_len(img, h, pe::chosen_base(h, want)->Ok_0);
    assert forall|k: int| 0 <= k < n implies (#[trigger] segs[k]).rva == virtual_address(file, k)
        && segs[k].mem_size >= virtual_size(file, k) && segs[k].mem_size >= raw_size(file, k) && (
    segs[k].mem_size == virtual_size(file, k) || segs[k].mem_size == raw_size(file, k)) by {
        assert(step(tbl, k) == entry_at(file, k));
    }
}

proof fn lemma_moved_len(img: Seq<u8>, h: pe::PeHeader, base: u64)
    ensures
        pe::moved(img, h, base) matches Ok(b) ==> b.len() == img.len(),
{
    lemma_blocks_len(
        img,
        h.reloc.0 as int,
        h.reloc.0 + h.reloc.1,
        base.wrapping_sub(h.image_base),
    );
}

proof fn lemma_blocks_len(img: Seq<u8>, p: int, end: int, delta: u64)
    ensures
        pe::fix_blocks(img, p, end, delta) matches Ok(b) ==> b.len() == img.len(),
    decreases end - p,
{
    if p + 8 <= end {
        let page = bytes::le32(img, p) as int;
        let size = bytes::le32(img, p + 4) as int;
        if size >= 8 && p + size <= end {
            lemma_entries_len(img, p, 0, (size - 8) / 2, page, delta);
            match pe::fix_entries(img, p, 0, (size - 8) / 2, page, delta) {
                Ok(b) => {
                    lemma_blocks_len(b, p + size, end, delta);
                },
                Err(_) => {},
            }
        }
    }
}

proof fn lemma_entries_len(img: Seq<u8>, p: int, e: int, n: int, page: int, delta: u64)
    ensures
        pe::fix_entries(img, p, e, n, page, delta) matches Ok(b) ==> b.len() == img.len(),
    decreases n - e,
{
    if e < n {
        let t = page + bytes::le16(img, p + 8 + e * 2) % 0x1000;
        let v = bytes::le64(img, t).wrapping_add(delta);
        lemma_entries_len(img, p, e + 1, n, page, delta);
        lemma_entries_len(bytes::splice(img, t, bytes::bytes64(v)), p, e + 1, n, page, delta);
    }
}

/// At the base that its headers prefer, a staged image is the file spread out:
/// byte `i` of a section is the file's byte `PointerToRawData + i`, wherever no
/// later section fills the same place; before the sections come the headers;
/// and the rest is zero.
pub proof fn law_sections_lie_in_the_image_as_in_the_file(file: Seq<u8>, x: int)
    requires
        pe::staged(file, Some(bytes::le64(file, pe_at(file) + 48))) is Ok,
        0 <= x < bytes::le32(file, pe_at(file) + 80),
    ensures
        ({
            let p = pe_at(file);
            let img = (pe::staged(file, Some(bytes::le64(file, p + 48)))->Ok_0).img;
            &&& forall|k: int|
                0 <= k < sections(file) && #[trigger] fills(file, k, x) && (forall|j: int|
                    k < j < sections(file) ==> !#[trigger] fills(file, j, x)) ==> img[x]
                    == file[raw_pointer(file, k) + (x - virtual_address(file, k))]
            &&& (forall|k: int| 0 <= k < sections(file) ==> !#[trigger] fills(file, k, x))
                ==> img[x] == (if x < bytes::le32(file, p + 84) && x < file.len() {
                file[x]
            } else {
                0
            })
        }),
{
    lemma_header(file);
    let h = pe::header(file)->Ok_0;
    let tbl = h.sect_tbl as int;
    let blank = pe::blank_image(file, h);
    let n = h.num_sections as nat;
    lemma_place(file, blank, tbl, n, x);
    let img = (pe::place(file, blank, tbl, n)->Ok_0).0;
    assert(h.image_base.wrapping_sub(h.image_base) == 0);
    assert forall|k: int| #[trigger] fills(file, k, x) == lays(file, step(tbl, k), x) by {
        reveal(fills);
        assert(step(tbl, k) == entry_at(file, k));
    }
    assert forall|k: int| 0 <= k < n && lays(file, #[trigger] step(tbl, k), x) implies fills(
        file,
        k,
        x,
    ) by {
        assert(fills(file, k, x) == lays(file, step(tbl, k), x));
    }
    assert forall|k: int|
        0 <= k < n && #[trigger] fills(file, k, x) && (forall|j: int|
            k < j < n ==> !#[trigger] fills(file, j, x)) implies img[x] == file[raw_pointer(file, k)
        + (x - virtual_address(file, k))] by {
        assert(step(tbl, k) == entry_at(file, k));
        assert(lays(file, step(tbl, k), x));
        assert forall|j: int| k < j < n implies !lays(file, #[trigger] step(tbl, j), x) by {
            assert(!fills(file, j, x));
        }
    }
    if forall|k: int| 0 <= k < n ==> !#[trigger] fills(file, k, x) {
        assert forall|j: int| 0 <= j < n implies !lays(file, #[trigger] step(tbl, j), x) by {
            assert(!fills(file, j, x));
        }
        assert(img[x] == blank[x]);
    }
}

/// An image at another base is the image at its preferred base, relocated by
/// the distance between the two.
pub proof fn law_other_base_is_the_preferred_one_moved(file: Seq<u8>, base: u64)
    requires
        base != bytes::le64(file, pe_at(file) + 48),
        base + 0x1000_0000 <= u64::MAX,
        pe::staged(file, Some(base)) is Ok,
    ensures
        ({
            let own = bytes::le64(file, pe_at(file) + 48);
            let (rva, size) = directory(file, 5);
            &&& pe::staged(file, Some(own)) is Ok
            &&& size > 0
            &&& pe::relocated(
                (pe::staged(file, Some(own))->Ok_0).img,
                rva as int,
                size as int,
                base.wrapping_sub(own),
            ) == Ok::<Seq<u8>, &'static str>((pe::staged(file, Some(base))->Ok_0).img)
        }),
{
    lemma_header(file);
    let h = pe::header(file)->Ok_0;
    let own = h.image_base;
    assert(own.wrapping_sub(own) == 0);
    assert(base.wrapping_sub(own) != 0);
    let blank = pe::blank_image(file, h);
    let (img, segs) = pe::place(file, blank, h.sect_tbl as int, h.num_sections as nat)->Ok_0;
    lemma_moved_len(img, h, base);
}

/// A file that may be moved is, by 256 MiB; one that may not stays.
pub proof fn law_movable_image_moves(file: Seq<u8>)
    requires
        pe::staged(file, None) is Ok,
    ensures
        ({
            let own = bytes::le64(file, pe_at(file) + 48);
            let flags = bytes::le16(file, pe_at(file) + 94);
            let base = (pe::staged(file, None)->Ok_0).load_base;
            if directory(file, 5).1 != 0 && flags / 64 % 2 == 1 {
                base == own + 0x1000_0000
            } else {
                base == own
            }
        }),
{
    lemma_header(file);
    let h = pe::header(file)->Ok_0;
    let flags: u16 = h.dll_chars;
    assert((flags & 0x0040 != 0) == (flags / 64 % 2 == 1)) by (bit_vector);
}

} // verus!
