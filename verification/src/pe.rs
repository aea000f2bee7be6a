//! PE32+ (x86-64) images: parsing, materialising, relocating, and reading the
//! export table.
//!
//! Every input is treated as hostile. A malformed header, an out-of-range
//! offset, an overflowing size all give an error.
use vstd::prelude::*;

use crate::bytes::{load16, load32, load64};

verus! {

pub const IMAGE_SCN_MEM_EXECUTE: u32 = 0x2000_0000;

pub const IMAGE_DLLCHARACTERISTICS_DYNAMIC_BASE: u16 = 0x0040;

pub const IMAGE_REL_BASED_ABSOLUTE: u16 = 0;

pub const IMAGE_REL_BASED_DIR64: u16 = 10;

/// How far a relocatable program moves off its preferred base.
pub const ALT_BASE_SHIFT: u64 = 0x1000_0000;

pub const MAX_IMAGE_SIZE: u64 = 0x1000_0000;

pub const MAX_SECTIONS: u16 = 96;

/// One past the last user address.
pub const USER_LIMIT: u64 = 0x0000_8000_0000_0000;

// --- bounded reads ---

pub open spec fn rd16(b: Seq<u8>, off: int) -> Result<u16, &'static str> {
    if off + 2 <= b.len() {
        Ok(crate::bytes::le16(b, off))
    } else {
        Err("PE: truncated (u16)")
    }
}

pub open spec fn rd32(b: Seq<u8>, off: int) -> Result<u32, &'static str> {
    if off + 4 <= b.len() {
        Ok(crate::bytes::le32(b, off))
    } else {
        Err("PE: truncated (u32)")
    }
}

pub open spec fn rd64(b: Seq<u8>, off: int) -> Result<u64, &'static str> {
    if off + 8 <= b.len() {
        Ok(crate::bytes::le64(b, off))
    } else {
        Err("PE: truncated (u64)")
    }
}

pub fn rd_u16(img: &[u8], off: u64) -> (r: Result<u16, &'static str>)
    ensures
        r == rd16(img@, off as int),
{
    let len: usize = img.len();
    if len < 2 || off > (len - 2) as u64 {
        return Err("PE: truncated (u16)");
    }
    Ok(load16(img, off as usize))
}

pub fn rd_u32(img: &[u8], off: u64) -> (r: Result<u32, &'static str>)
    ensures
        r == rd32(img@, off as int),
{
    let len: usize = img.len();
    if len < 4 || off > (len - 4) as u64 {
        return Err("PE: truncated (u32)");
    }
    Ok(load32(img, off as usize))
}

pub fn rd_u64(img: &[u8], off: u64) -> (r: Result<u64, &'static str>)
    ensures
        r == rd64(img@, off as int),
{
    let len: usize = img.len();
    if len < 8 || off > (len - 8) as u64 {
        return Err("PE: truncated (u64)");
    }
    Ok(load64(img, off as usize))
}

// --- names ---

/// `s` without the NULs at its end.
pub open spec fn trim_nul(s: Seq<char>) -> Seq<char>
    decreases s.len(),
{
    if s.len() > 0 && s.last() == '\0' {
        trim_nul(s.drop_last())
    } else {
        s
    }
}

/// `s` folded to lower case, with `.dll` behind it when it has no dot.
pub open spec fn dll_form(s: Seq<char>) -> Seq<char> {
    let l = crate::text::lowered(s);
    if l.contains('.') {
        l
    } else {
        l + seq!['.', 'd', 'l', 'l']
    }
}

/// The lower-case base name of an import, `.dll` implied.
pub open spec fn dll_name(raw: Seq<char>) -> Seq<char> {
    dll_form(crate::text::pieces(trim_nul(raw), true).last())
}

/// Lower-case `base` and append `.dll` when it has no dot.
pub fn with_dll_suffix(base: &[char]) -> (r: Vec<char>)
    ensures
        r@ == dll_form(base@),
{
    let mut s = crate::text::to_lowered(base);
    let n: usize = s.len();
    let mut i: usize = 0;
    while i < n
        invariant
            i <= n,
            n == s@.len(),
            s@ == crate::text::lowered(base@),
            forall|k: int| 0 <= k < i ==> s@[k] != '.',
        decreases n - i,
    {
        if s[i] == '.' {
            assert(s@[i as int] == '.');
            return s;
        }
        i = i + 1;
    }
    s.push('.');
    s.push('d');
    s.push('l');
    s.push('l');
    assert(s@ =~= dll_form(base@));
    s
}

/// Reduce a raw import name to its lower-case base name with an extension.
pub fn normalize_dll_name(raw: &str) -> (r: String)
    ensures
        r@ == dll_name(raw@),
{
    let mut s = crate::text::chars_of(raw);
    while s.len() > 0 && s[s.len() - 1] == '\0'
        invariant
            trim_nul(s@) == trim_nul(raw@),
        decreases s.len(),
    {
        s.pop();
    }
    assert(s@ == trim_nul(raw@));
    let parts = crate::text::split(s.as_slice(), true);
    let last = &parts[parts.len() - 1];
    assert(crate::text::texts(parts@).last() == last@);
    let out = with_dll_suffix(last.as_slice());
    crate::text::string_of(out.as_slice())
}

/// The bytes from `off` up to a NUL within the next 256.
pub open spec fn cstr_bytes(img: Seq<u8>, off: int) -> Result<Seq<u8>, &'static str> {
    let end = if off + 256 < img.len() {
        off + 256
    } else {
        img.len() as int
    };
    if off > img.len() {
        Err("PE: string out of range")
    } else {
        let n = nul_at(img, off, end);
        if n >= end {
            Err("PE: unterminated string")
        } else {
            Ok(img.subrange(off, n))
        }
    }
}

/// The first NUL in `[at, end)`, or `end`.
pub open spec fn nul_at(img: Seq<u8>, at: int, end: int) -> int
    decreases end - at,
{
    if at >= end || img[at] == 0 {
        at
    } else {
        nul_at(img, at + 1, end)
    }
}

/// The text at `off`.
pub open spec fn cstr(img: Seq<u8>, off: int) -> Result<Seq<char>, &'static str> {
    match cstr_bytes(img, off) {
        Err(e) => Err(e),
        Ok(b) => if vstd::utf8::valid_utf8(b) {
            Ok(vstd::utf8::decode_utf8(b))
        } else {
            Err("PE: non-UTF8 import name")
        },
    }
}

/// A NUL-terminated string at `img[off..]`, at most 256 bytes away.
pub fn cstr_at<'a>(img: &'a [u8], off: u64) -> (r: Result<&'a str, &'static str>)
    ensures
        match cstr(img@, off as int) {
            Ok(t) => r is Ok && r->Ok_0@ == t,
            Err(e) => r == Err::<&str, &'static str>(e),
        },
{
    let len: usize = img.len();
    if off > len as u64 {
        return Err("PE: string out of range");
    }
    let start: usize = off as usize;
    let end: usize = if len - start > 256 {
        start + 256
    } else {
        len
    };
    let mut at: usize = start;
    while at < end && img[at] != 0
        invariant
            start <= at <= end,
            end <= img@.len(),
            nul_at(img@, start as int, end as int) == nul_at(img@, at as int, end as int),
        decreases end - at,
    {
        at = at + 1;
    }
    if at == end {
        return Err("PE: unterminated string");
    }
    match crate::text::utf8_text(vstd::slice::slice_subrange(img, start, at)) {
        Some(t) => {
            proof {
                vstd::utf8::encode_utf8_decode_utf8(t@);
            }
            Ok(t)
        },
        None => Err("PE: non-UTF8 import name"),
    }
}

// --- the headers ---

/// What the loader takes from the COFF and optional headers.
pub struct PeHeader {
    pub num_sections: u16,
    /// File offset of the section table.
    pub sect_tbl: u64,
    pub entry_rva: u64,
    pub image_base: u64,
    pub size_of_image: u64,
    pub size_of_headers: u64,
    pub dll_chars: u16,
    pub tls: (u32, u32),
    pub export: (u32, u32),
    pub import: (u32, u32),
    pub reloc: (u32, u32),
}

/// `v` has exactly one bit set.
pub open spec fn is_pow2(v: u64) -> bool {
    v != 0 && v & ((v - 1) as u64) == 0
}

/// Data directory `i` of the table at `dirs`, all of it in the file.
pub open spec fn dir_at(file: Seq<u8>, dirs: int, n_dirs: int, i: int) -> (u32, u32) {
    if i >= n_dirs {
        (0, 0)
    } else {
        (crate::bytes::le32(file, dirs + i * 8), crate::bytes::le32(file, dirs + i * 8 + 4))
    }
}

/// Data directory `i` is missing from the file though the header counts it.
pub open spec fn dir_cut(file: Seq<u8>, dirs: int, n_dirs: int, i: int) -> bool {
    i < n_dirs && dirs + i * 8 + 8 > file.len()
}

/// The headers of `file`, or why they are refused.
pub open spec fn header(file: Seq<u8>) -> Result<PeHeader, &'static str> {
    let pe = crate::bytes::le32(file, 0x3C) as int;
    if !(file.len() >= 2 && file[0] == 0x4D && file[1] == 0x5A) {
        Err("PE: not an MZ image")
    } else if file.len() < 0x40 {
        Err("PE: truncated (u32)")
    } else if !(pe + 4 <= file.len() && file[pe] == 0x50 && file[pe + 1] == 0x45 && file[pe + 2] == 0
        && file[pe + 3] == 0) {
        Err("PE: no PE signature")
    } else {
        coff_header(file, pe + 4)
    }
}

/// The headers from the COFF header at `coff` on.
pub open spec fn coff_header(file: Seq<u8>, coff: int) -> Result<PeHeader, &'static str> {
    let num_sections = crate::bytes::le16(file, coff + 2);
    let opt_size = crate::bytes::le16(file, coff + 16);
    if file.len() < coff + 2 {
        Err("PE: truncated (u16)")
    } else if crate::bytes::le16(file, coff) != 0x8664 {
        Err("PE: not x86-64 (Machine != 0x8664)")
    } else if file.len() < coff + 4 {
        Err("PE: truncated (u16)")
    } else if num_sections == 0 || num_sections > MAX_SECTIONS {
        Err("PE: absurd NumberOfSections")
    } else if file.len() < coff + 18 {
        Err("PE: truncated (u16)")
    } else if opt_size < 112 {
        Err("PE: optional header too small")
    } else {
        opt_header(file, coff + 20, num_sections, opt_size)
    }
}

/// The headers from the optional header at `opt` on.
pub open spec fn opt_header(file: Seq<u8>, opt: int, num_sections: u16, opt_size: u16) -> Result<
    PeHeader,
    &'static str,
> {
    let entry_rva = crate::bytes::le32(file, opt + 16) as u64;
    let image_base = crate::bytes::le64(file, opt + 24);
    let sect_align = crate::bytes::le32(file, opt + 32) as u64;
    let size_of_image = crate::bytes::le32(file, opt + 56) as u64;
    let n_dirs = crate::bytes::le32(file, opt + 108) as int;
    let dirs = opt + 112;
    if file.len() < opt + 2 {
        Err("PE: truncated (u16)")
    } else if crate::bytes::le16(file, opt) != 0x20B {
        Err("PE: not PE32+ (Optional Magic != 0x20B)")
    } else if file.len() < opt + 20 {
        Err("PE: truncated (u32)")
    } else if file.len() < opt + 32 {
        Err("PE: truncated (u64)")
    } else if file.len() < opt + 64 {
        Err("PE: truncated (u32)")
    } else if file.len() < opt + 72 {
        Err("PE: truncated (u16)")
    } else if file.len() < opt + 112 {
        Err("PE: truncated (u32)")
    } else if image_base % 0x1000 != 0 || image_base == 0 || image_base >= USER_LIMIT {
        Err("PE: bad ImageBase")
    } else if size_of_image == 0 || size_of_image > MAX_IMAGE_SIZE {
        Err("PE: absurd SizeOfImage")
    } else if sect_align < 0x1000 || !is_pow2(sect_align) {
        Err("PE: bad SectionAlignment")
    } else if entry_rva >= size_of_image {
        Err("PE: entry point outside the image")
    } else if dir_cut(file, dirs, n_dirs, 9) || dir_cut(file, dirs, n_dirs, 0) || dir_cut(
        file,
        dirs,
        n_dirs,
        1,
    ) || dir_cut(file, dirs, n_dirs, 5) {
        Err("PE: truncated (u32)")
    } else {
        Ok(
            PeHeader {
                num_sections,
                sect_tbl: (opt + opt_size) as u64,
                entry_rva,
                image_base,
                size_of_image,
                size_of_headers: crate::bytes::le32(file, opt + 60) as u64,
                dll_chars: crate::bytes::le16(file, opt + 70),
                tls: dir_at(file, dirs, n_dirs, 9),
                export: dir_at(file, dirs, n_dirs, 0),
                import: dir_at(file, dirs, n_dirs, 1),
                reloc: dir_at(file, dirs, n_dirs, 5),
            },
        )
    }
}

fn read_dir(file: &[u8], dirs: u64, n_dirs: u32, i: u32) -> (r: Result<(u32, u32), &'static str>)
    requires
        dirs <= 0x1_0001_0000,
        i < 16,
    ensures
        dir_cut(file@, dirs as int, n_dirs as int, i as int) ==> r == Err::<
            (u32, u32),
            &'static str,
        >("PE: truncated (u32)"),
        !dir_cut(file@, dirs as int, n_dirs as int, i as int) ==> r == Ok::<
            (u32, u32),
            &'static str,
        >(dir_at(file@, dirs as int, n_dirs as int, i as int)),
{
    if i >= n_dirs {
        return Ok((0, 0));
    }
    let at: u64 = dirs + i as u64 * 8;
    match (rd_u32(file, at), rd_u32(file, at + 4)) {
        (Ok(a), Ok(b)) => Ok((a, b)),
        _ => Err("PE: truncated (u32)"),
    }
}

fn parse_opt(file: &[u8], opt: u64, num_sections: u16, opt_size: u16) -> (r: Result<
    PeHeader,
    &'static str,
>)
    requires
        opt <= 0x1_0000_0100,
    ensures
        r == opt_header(file@, opt as int, num_sections, opt_size),
{
    let len: u64 = file.len() as u64;
    if len < opt + 2 {
        return Err("PE: truncated (u16)");
    }
    let size: usize = file.len();
    let o: usize = opt as usize;
    if load16(file, o) != 0x20B {
        return Err("PE: not PE32+ (Optional Magic != 0x20B)");
    }
    if len < opt + 20 {
        return Err("PE: truncated (u32)");
    }
    if len < opt + 32 {
        return Err("PE: truncated (u64)");
    }
    if len < opt + 64 {
        return Err("PE: truncated (u32)");
    }
    if len < opt + 72 {
        return Err("PE: truncated (u16)");
    }
    if len < opt + 112 {
        return Err("PE: truncated (u32)");
    }
    let entry_rva: u64 = load32(file, o + 16) as u64;
    let image_base: u64 = load64(file, o + 24);
    let sect_align: u64 = load32(file, o + 32) as u64;
    let size_of_image: u64 = load32(file, o + 56) as u64;
    let size_of_headers: u64 = load32(file, o + 60) as u64;
    let dll_chars: u16 = load16(file, o + 70);
    let n_dirs: u32 = load32(file, o + 108);
    if image_base % 0x1000 != 0 || image_base == 0 || image_base >= USER_LIMIT {
        return Err("PE: bad ImageBase");
    }
    if size_of_image == 0 || size_of_image > MAX_IMAGE_SIZE {
        return Err("PE: absurd SizeOfImage");
    }
    if sect_align < 0x1000 || sect_align & (sect_align - 1) != 0 {
        return Err("PE: bad SectionAlignment");
    }
    if entry_rva >= size_of_image {
        return Err("PE: entry point outside the image");
    }
    let dirs: u64 = opt + 112;
    let tls = read_dir(file, dirs, n_dirs, 9);
    let export = read_dir(file, dirs, n_dirs, 0);
    let import = read_dir(file, dirs, n_dirs, 1);
    let reloc = read_dir(file, dirs, n_dirs, 5);
    match (tls, export, import, reloc) {
        (Ok(tls), Ok(export), Ok(import), Ok(reloc)) => Ok(
            PeHeader {
                num_sections,
                sect_tbl: opt + opt_size as u64,
                entry_rva,
                image_base,
                size_of_image,
                size_of_headers,
                dll_chars,
                tls,
                export,
                import,
                reloc,
            },
        ),
        _ => Err("PE: truncated (u32)"),
    }
}

/// Parse the headers of `file`.
pub fn parse_header(file: &[u8]) -> (r: Result<PeHeader, &'static str>)
    ensures
        r == header(file@),
{
    let len: usize = file.len();
    if !(len >= 2 && file[0] == 0x4D && file[1] == 0x5A) {
        return Err("PE: not an MZ image");
    }
    if len < 0x40 {
        return Err("PE: truncated (u32)");
    }
    let pe32: u32 = load32(file, 0x3C);
    let pe: u64 = pe32 as u64;
    if pe + 4 > len as u64 {
        return Err("PE: no PE signature");
    }
    let p: usize = pe as usize;
    if !(file[p] == 0x50 && file[p + 1] == 0x45 && file[p + 2] == 0 && file[p + 3] == 0) {
        return Err("PE: no PE signature");
    }
    let coff: u64 = pe + 4;
    match rd_u16(file, coff) {
        Ok(m) => {
            if m != 0x8664 {
                return Err("PE: not x86-64 (Machine != 0x8664)");
            }
        },
        Err(e) => { return Err(e); },
    }
    let num_sections: u16 = match rd_u16(file, coff + 2) {
        Ok(n) => n,
        Err(e) => { return Err(e); },
    };
    if num_sections == 0 || num_sections > MAX_SECTIONS {
        return Err("PE: absurd NumberOfSections");
    }
    let opt_size: u16 = match rd_u16(file, coff + 16) {
        Ok(n) => n,
        Err(e) => { return Err(e); },
    };
    if opt_size < 112 {
        return Err("PE: optional header too small");
    }
    parse_opt(file, coff + 20, num_sections, opt_size)
}

/// `SizeOfImage` of a file, or why it is refused.
pub open spec fn image_size(file: Seq<u8>) -> Result<u64, &'static str> {
    let pe = crate::bytes::le32(file, 0x3C) as int;
    let soi = crate::bytes::le32(file, pe + 80) as u64;
    if file.len() < 0x40 {
        Err("PE: truncated (u32)")
    } else if !(pe + 4 <= file.len() && file[pe] == 0x50 && file[pe + 1] == 0x45 && file[pe + 2] == 0
        && file[pe + 3] == 0) {
        Err("PE: no PE signature")
    } else if file.len() < pe + 84 {
        Err("PE: truncated (u32)")
    } else if soi == 0 || soi > MAX_IMAGE_SIZE {
        Err("PE: absurd SizeOfImage")
    } else {
        Ok(soi)
    }
}

/// Peek `SizeOfImage` without a full parse.
pub fn peek_size_of_image(file: &[u8]) -> (r: Result<u64, &'static str>)
    ensures
        r == image_size(file@),
{
    let len: usize = file.len();
    if len < 0x40 {
        return Err("PE: truncated (u32)");
    }
    let pe32: u32 = load32(file, 0x3C);
    let pe: u64 = pe32 as u64;
    if pe + 4 > len as u64 {
        return Err("PE: no PE signature");
    }
    let p: usize = pe as usize;
    if !(file[p] == 0x50 && file[p + 1] == 0x45 && file[p + 2] == 0 && file[p + 3] == 0) {
        return Err("PE: no PE signature");
    }
    match rd_u32(file, pe + 80) {
        Ok(n) => {
            let soi: u64 = n as u64;
            if soi == 0 || soi > MAX_IMAGE_SIZE {
                return Err("PE: absurd SizeOfImage");
            }
            Ok(soi)
        },
        Err(e) => Err(e),
    }
}

// --- sections ---

/// A section as the mapping pass needs it.
#[derive(Clone, Copy)]
pub struct Seg {
    pub rva: u64,
    pub mem_size: u64,
    pub executable: bool,
}

pub open spec fn min3(a: int, b: int, c: int) -> int {
    let m = if a < b {
        a
    } else {
        b
    };
    if m < c {
        m
    } else {
        c
    }
}

/// The section whose table entry is at `s`.
pub open spec fn seg_at(file: Seq<u8>, s: int) -> Seg {
    let vsize = crate::bytes::le32(file, s + 8) as u64;
    let raw_size = crate::bytes::le32(file, s + 16) as u64;
    Seg {
        rva: crate::bytes::le32(file, s + 12) as u64,
        mem_size: if vsize > raw_size {
            vsize
        } else {
            raw_size
        },
        executable: crate::bytes::le32(file, s + 36) & IMAGE_SCN_MEM_EXECUTE != 0,
    }
}

/// The image with the file bytes of the section at `s` laid over it.
pub open spec fn with_section(file: Seq<u8>, img: Seq<u8>, s: int) -> Seq<u8> {
    let vsize = crate::bytes::le32(file, s + 8) as int;
    let vaddr = crate::bytes::le32(file, s + 12) as int;
    let raw_size = crate::bytes::le32(file, s + 16) as int;
    let file_pos = crate::bytes::le32(file, s + 20) as int;
    let avail = if file.len() > file_pos {
        file.len() - file_pos
    } else {
        0
    };
    let n = min3(raw_size, vsize, avail);
    if n > 0 {
        crate::bytes::splice(img, vaddr, file.subrange(file_pos, file_pos + n))
    } else {
        img
    }
}

/// The image and section list after the first `n` table entries from `tbl` on.
pub open spec fn place(file: Seq<u8>, img: Seq<u8>, tbl: int, n: nat) -> Result<
    (Seq<u8>, Seq<Seg>),
    &'static str,
>
    decreases n,
{
    if n == 0 {
        Ok((img, Seq::empty()))
    } else {
        match place(file, img, tbl, (n - 1) as nat) {
            Err(e) => Err(e),
            Ok((b, segs)) => place_one(file, b, segs, tbl + (n - 1) * 40),
        }
    }
}

/// The image and section list after the table entry at `s`.
pub open spec fn place_one(file: Seq<u8>, img: Seq<u8>, segs: Seq<Seg>, s: int) -> Result<
    (Seq<u8>, Seq<Seg>),
    &'static str,
> {
    let g = seg_at(file, s);
    if s + 40 > file.len() {
        Err("PE: section table truncated")
    } else if g.rva >= img.len() || g.rva + g.mem_size > img.len() {
        Err("PE: section outside the image")
    } else {
        Ok((with_section(file, img, s), segs.push(g)))
    }
}

proof fn lemma_place_stuck(file: Seq<u8>, img: Seq<u8>, tbl: int, i: nat, n: nat)
    requires
        i <= n,
    ensures
        place(file, img, tbl, i) matches Err(e) ==> place(file, img, tbl, n) == Err::<
            (Seq<u8>, Seq<Seg>),
            &'static str,
        >(e),
    decreases n - i,
{
    if i < n {
        lemma_place_stuck(file, img, tbl, i + 1, n);
    }
}

fn place_section(file: &[u8], img: &mut Vec<u8>, segs: &mut Vec<Seg>, s: u64) -> (r: Result<
    (),
    &'static str,
>)
    requires
        s + 40 <= u64::MAX,
    ensures
        match place_one(file@, old(img)@, old(segs)@, s as int) {
            Ok((b, g)) => r is Ok && final(img)@ == b && final(segs)@ == g,
            Err(e) => r == Err::<(), &'static str>(e),
        },
        final(img)@.len() == old(img)@.len(),
{
    let len: usize = file.len();
    if s + 40 > len as u64 {
        return Err("PE: section table truncated");
    }
    let at: usize = s as usize;
    let vsize: u64 = load32(file, at + 8) as u64;
    let vaddr: u64 = load32(file, at + 12) as u64;
    let raw_size: u64 = load32(file, at + 16) as u64;
    let file_pos: u64 = load32(file, at + 20) as u64;
    let chars: u32 = load32(file, at + 36);
    let mem_size: u64 = if vsize > raw_size {
        vsize
    } else {
        raw_size
    };
    let room: usize = img.len();
    if vaddr >= room as u64 || vaddr + mem_size > room as u64 {
        return Err("PE: section outside the image");
    }
    let avail: u64 = if len as u64 > file_pos {
        len as u64 - file_pos
    } else {
        0
    };
    let mut n: u64 = if raw_size < vsize {
        raw_size
    } else {
        vsize
    };
    if avail <= n {
        n = avail;
    }
    if n > 0 {
        let src = crate::bytes::sub(file, file_pos as usize, (file_pos + n) as usize);
        crate::bytes::put(img, vaddr as usize, src.as_slice());
    }
    segs.push(Seg { rva: vaddr, mem_size, executable: chars & IMAGE_SCN_MEM_EXECUTE != 0 });
    Ok(())
}

// --- base relocations ---

/// The image after the fixups `[e, n)` of the block at `p` were applied.
pub open spec fn fix_entries(
    img: Seq<u8>,
    p: int,
    e: int,
    n: int,
    page_rva: int,
    delta: u64,
) -> Result<Seq<u8>, &'static str>
    decreases n - e,
{
    if e >= n {
        Ok(img)
    } else {
        let raw = crate::bytes::le16(img, p + 8 + e * 2);
        let typ = raw / 0x1000;
        let t = page_rva + raw % 0x1000;
        if typ == IMAGE_REL_BASED_ABSOLUTE {
            fix_entries(img, p, e + 1, n, page_rva, delta)
        } else if typ == IMAGE_REL_BASED_DIR64 {
            if t + 8 > img.len() {
                Err("PE: reloc target out of range")
            } else {
                let v = crate::bytes::le64(img, t).wrapping_add(delta);
                fix_entries(
                    crate::bytes::splice(img, t, crate::bytes::bytes64(v)),
                    p,
                    e + 1,
                    n,
                    page_rva,
                    delta,
                )
            }
        } else {
            Err("PE: unsupported relocation type")
        }
    }
}

/// The image after the fixup blocks in `[p, end)` were applied.
pub open spec fn fix_blocks(img: Seq<u8>, p: int, end: int, delta: u64) -> Result<
    Seq<u8>,
    &'static str,
>
    decreases end - p,
{
    if p + 8 > end {
        Ok(img)
    } else {
        let page_rva = crate::bytes::le32(img, p) as int;
        let size = crate::bytes::le32(img, p + 4) as int;
        if size < 8 || p + size > end {
            Err("PE: bad .reloc block size")
        } else {
            match fix_entries(img, p, 0, (size - 8) / 2, page_rva, delta) {
                Err(e) => Err(e),
                Ok(b) => fix_blocks(b, p + size, end, delta),
            }
        }
    }
}

/// The image relocated by `delta`.
pub open spec fn relocated(img: Seq<u8>, rva: int, size: int, delta: u64) -> Result<
    Seq<u8>,
    &'static str,
> {
    if rva + size > img.len() {
        Err("PE: .reloc out of range")
    } else {
        fix_blocks(img, rva, rva + size, delta)
    }
}

proof fn lemma_fix_len(img: Seq<u8>, p: int, e: int, n: int, page_rva: int, delta: u64)
    ensures
        fix_entries(img, p, e, n, page_rva, delta) matches Ok(b) ==> b.len() == img.len(),
    decreases n - e,
{
    if e < n {
        let raw = crate::bytes::le16(img, p + 8 + e * 2);
        let t = page_rva + raw % 0x1000;
        let v = crate::bytes::le64(img, t).wrapping_add(delta);
        lemma_fix_len(img, p, e + 1, n, page_rva, delta);
        lemma_fix_len(
            crate::bytes::splice(img, t, crate::bytes::bytes64(v)),
            p,
            e + 1,
            n,
            page_rva,
            delta,
        );
    }
}

/// Apply the fixups of one block.
fn fix_block(img: &mut Vec<u8>, p: usize, n: usize, page_rva: u32, delta: u64) -> (r: Result<
    (),
    &'static str,
>)
    requires
        p + 8 + n * 2 <= old(img)@.len(),
    ensures
        match fix_entries(old(img)@, p as int, 0, n as int, page_rva as int, delta) {
            Ok(b) => r is Ok && final(img)@ == b,
            Err(e) => r == Err::<(), &'static str>(e),
        },
        final(img)@.len() == old(img)@.len(),
{
    let len: usize = img.len();
    let mut e: usize = 0;
    while e < n
        invariant
            e <= n,
            len == img@.len(),
            len == old(img)@.len(),
            p + 8 + n * 2 <= len,
            fix_entries(old(img)@, p as int, 0, n as int, page_rva as int, delta) == fix_entries(
                img@,
                p as int,
                e as int,
                n as int,
                page_rva as int,
                delta,
            ),
        decreases n - e,
    {
        let raw: u16 = load16(img.as_slice(), p + 8 + e * 2);
        let typ: u16 = raw / 0x1000;
        let t: u64 = page_rva as u64 + (raw % 0x1000) as u64;
        if typ == IMAGE_REL_BASED_DIR64 {
            if t + 8 > len as u64 {
                return Err("PE: reloc target out of range");
            }
            let v: u64 = load64(img.as_slice(), t as usize).wrapping_add(delta);
            crate::bytes::put64(img, t as usize, v);
        } else if typ != IMAGE_REL_BASED_ABSOLUTE {
            return Err("PE: unsupported relocation type");
        }
        e = e + 1;
    }
    Ok(())
}

/// Walk the `.reloc` blocks and add `delta` to every 64-bit target.
pub fn apply_relocs(img: &mut Vec<u8>, reloc_rva: u64, reloc_size: u64, delta: u64) -> (r: Result<
    (),
    &'static str,
>)
    ensures
        match relocated(old(img)@, reloc_rva as int, reloc_size as int, delta) {
            Ok(b) => r is Ok && final(img)@ == b,
            Err(e) => r == Err::<(), &'static str>(e),
        },
        final(img)@.len() == old(img)@.len(),
{
    let len: usize = img.len();
    if reloc_rva > len as u64 || reloc_size > len as u64 - reloc_rva {
        return Err("PE: .reloc out of range");
    }
    let end: usize = (reloc_rva + reloc_size) as usize;
    let mut p: usize = reloc_rva as usize;
    while end - p >= 8
        invariant
            p <= end,
            end <= len,
            len == img@.len(),
            len == old(img)@.len(),
            end == reloc_rva + reloc_size,
            relocated(old(img)@, reloc_rva as int, reloc_size as int, delta) == fix_blocks(
                img@,
                p as int,
                end as int,
                delta,
            ),
        decreases end - p,
    {
        let page_rva: u32 = load32(img.as_slice(), p);
        let size32: u32 = load32(img.as_slice(), p + 4);
        let size: usize = size32 as usize;
        if size < 8 || size > end - p {
            return Err("PE: bad .reloc block size");
        }
        match fix_block(img, p, (size - 8) / 2, page_rva, delta) {
            Ok(()) => (),
            Err(e) => { return Err(e); },
        }
        p = p + size;
    }
    Ok(())
}

// --- staging ---

/// A module's TLS directory; the addresses are run-time addresses.
#[derive(Clone, Copy)]
pub struct TlsInfo {
    /// The template is `[raw_start_va, raw_end_va)`.
    pub raw_start_va: u64,
    pub raw_end_va: u64,
    /// Where the module's TLS index goes.
    pub index_ptr_va: u64,
    /// A null-terminated array of callbacks.
    pub callbacks_va: u64,
    pub zero_fill: u32,
}

/// One image parsed, materialised at RVA 0 and relocated, but not yet mapped
/// and with its imports not yet bound.
pub struct StagedImage {
    pub load_base: u64,
    pub size_of_image: u64,
    /// Absolute; `load_base` itself when the image has no entry point.
    pub entry: u64,
    pub hdr_n: u64,
    pub img: Vec<u8>,
    pub segs: Vec<Seg>,
    pub import_rva: u32,
    pub import_size: u32,
    pub export_rva: u32,
    pub export_size: u32,
    pub tls: Option<TlsInfo>,
}

/// What a staged image is.
#[verifier::ext_equal]
pub struct Staged {
    pub load_base: u64,
    pub size_of_image: u64,
    pub entry: u64,
    pub hdr_n: u64,
    pub img: Seq<u8>,
    pub segs: Seq<Seg>,
    pub import: (u32, u32),
    pub export: (u32, u32),
    pub tls: Option<TlsInfo>,
}

impl View for StagedImage {
    type V = Staged;

    open spec fn view(&self) -> Staged {
        Staged {
            load_base: self.load_base,
            size_of_image: self.size_of_image,
            entry: self.entry,
            hdr_n: self.hdr_n,
            img: self.img@,
            segs: self.segs@,
            import: (self.import_rva, self.import_size),
            export: (self.export_rva, self.export_size),
            tls: self.tls,
        }
    }
}

/// The image opted into being moved and says how.
pub open spec fn relocatable(h: PeHeader) -> bool {
    h.reloc.1 != 0 && h.dll_chars & IMAGE_DLLCHARACTERISTICS_DYNAMIC_BASE != 0
}

/// Where the image loads. A wanted base wins; else the preferred one, shifted
/// when the image opted into relocation.
pub open spec fn chosen_base(h: PeHeader, want: Option<u64>) -> Result<u64, &'static str> {
    match want {
        Some(b) => Ok(b),
        None => if relocatable(h) {
            if h.image_base + ALT_BASE_SHIFT + h.size_of_image < USER_LIMIT {
                Ok((h.image_base + ALT_BASE_SHIFT) as u64)
            } else {
                Err("PE: no room for an alternative base")
            }
        } else {
            Ok(h.image_base)
        },
    }
}

/// The TLS directory of a relocated image.
pub open spec fn tls_of(img: Seq<u8>, tls: (u32, u32)) -> Result<Option<TlsInfo>, &'static str> {
    let d = tls.0 as int;
    if tls.1 == 0 {
        Ok(None)
    } else if d + 40 > img.len() {
        Err("PE: TLS directory out of range")
    } else {
        Ok(
            Some(
                TlsInfo {
                    raw_start_va: crate::bytes::le64(img, d),
                    raw_end_va: crate::bytes::le64(img, d + 8),
                    index_ptr_va: crate::bytes::le64(img, d + 16),
                    callbacks_va: crate::bytes::le64(img, d + 24),
                    zero_fill: crate::bytes::le32(img, d + 32),
                },
            ),
        )
    }
}

/// How many header bytes are mapped.
pub open spec fn header_bytes(file: Seq<u8>, h: PeHeader) -> int {
    min3(h.size_of_headers as int, file.len() as int, h.size_of_image as int)
}

/// The image before any section: the headers, then zeros.
pub open spec fn blank_image(file: Seq<u8>, h: PeHeader) -> Seq<u8> {
    crate::bytes::splice(
        crate::bytes::zeros(h.size_of_image as nat),
        0,
        file.take(header_bytes(file, h)),
    )
}

/// The image at its load address.
pub open spec fn moved(img: Seq<u8>, h: PeHeader, base: u64) -> Result<Seq<u8>, &'static str> {
    let delta = base.wrapping_sub(h.image_base);
    if delta == 0 {
        Ok(img)
    } else if h.reloc.1 == 0 {
        Err("PE: needs relocation but has no .reloc")
    } else {
        relocated(img, h.reloc.0 as int, h.reloc.1 as int, delta)
    }
}

/// `file` parsed, materialised and relocated.
pub open spec fn staged(file: Seq<u8>, want: Option<u64>) -> Result<Staged, &'static str> {
    match header(file) {
        Err(e) => Err(e),
        Ok(h) => match place(
            file,
            blank_image(file, h),
            h.sect_tbl as int,
            h.num_sections as nat,
        ) {
            Err(e) => Err(e),
            Ok((img, segs)) => match chosen_base(h, want) {
                Err(e) => Err(e),
                Ok(base) => match moved(img, h, base) {
                    Err(e) => Err(e),
                    Ok(img2) => match tls_of(img2, h.tls) {
                        Err(e) => Err(e),
                        Ok(tls) => Ok(
                            Staged {
                                load_base: base,
                                size_of_image: h.size_of_image,
                                entry: (base + h.entry_rva) as u64,
                                hdr_n: header_bytes(file, h) as u64,
                                img: img2,
                                segs,
                                import: h.import,
                                export: h.export,
                                tls,
                            },
                        ),
                    },
                },
            },
        },
    }
}

/// Parse, materialise and relocate `file`. `want_base` fixes the load address;
/// `None` keeps the preferred one unless the image opted into relocation.
#[verifier::loop_isolation(false)]
pub fn stage_image(file: &[u8], want_base: Option<u64>) -> (r: Result<StagedImage, &'static str>)
    requires
        want_base matches Some(b) ==> b + MAX_IMAGE_SIZE <= u64::MAX,
    ensures
        match staged(file@, want_base) {
            Ok(s) => r is Ok && r->Ok_0@ == s && s.img.len() == s.size_of_image && s.size_of_image
                <= MAX_IMAGE_SIZE && s.load_base + s.size_of_image <= u64::MAX,
            Err(e) => r == Err::<StagedImage, &'static str>(e),
        },
{
    let h = match parse_header(file) {
        Ok(h) => h,
        Err(e) => { return Err(e); },
    };
    let len: usize = file.len();
    let mut img = crate::bytes::zeroed(h.size_of_image as usize);
    let mut hdr_n: u64 = if h.size_of_headers < len as u64 {
        h.size_of_headers
    } else {
        len as u64
    };
    if h.size_of_image <= hdr_n {
        hdr_n = h.size_of_image;
    }
    let head = crate::bytes::sub(file, 0, hdr_n as usize);
    assert(head@ =~= file@.take(header_bytes(file@, h)));
    crate::bytes::put(&mut img, 0, head.as_slice());
    let ghost blank = img@;
    assert(blank == blank_image(file@, h));
    let mut segs: Vec<Seg> = Vec::new();
    let n: u16 = h.num_sections;
    let mut i: u16 = 0;
    assert(segs@ =~= Seq::<Seg>::empty());
    while i < n
        invariant
            i <= n,
            n <= 96,
            h.sect_tbl <= 0x1_0002_0000,
            img@.len() == h.size_of_image,
            place(file@, blank, h.sect_tbl as int, i as nat) == Ok::<
                (Seq<u8>, Seq<Seg>),
                &'static str,
            >((img@, segs@)),
        decreases n - i,
    {
        proof {
            lemma_place_stuck(file@, blank, h.sect_tbl as int, (i + 1) as nat, n as nat);
        }
        match place_section(file, &mut img, &mut segs, h.sect_tbl + i as u64 * 40) {
            Ok(()) => (),
            Err(e) => { return Err(e); },
        }
        i = i + 1;
    }
    let base: u64 = match want_base {
        Some(b) => b,
        None => {
            if h.reloc.1 != 0 && h.dll_chars & IMAGE_DLLCHARACTERISTICS_DYNAMIC_BASE != 0 {
                let alt: u64 = h.image_base + ALT_BASE_SHIFT;
                if alt + h.size_of_image >= USER_LIMIT {
                    return Err("PE: no room for an alternative base");
                }
                alt
            } else {
                h.image_base
            }
        },
    };
    let delta: u64 = base.wrapping_sub(h.image_base);
    if delta != 0 {
        if h.reloc.1 == 0 {
            return Err("PE: needs relocation but has no .reloc");
        }
        match apply_relocs(&mut img, h.reloc.0 as u64, h.reloc.1 as u64, delta) {
            Ok(()) => (),
            Err(e) => { return Err(e); },
        }
    }
    let size: usize = img.len();
    let tls: Option<TlsInfo> = if h.tls.1 != 0 {
        let at: u64 = h.tls.0 as u64;
        if at + 40 > size as u64 {
            return Err("PE: TLS directory out of range");
        }
        let d: usize = at as usize;
        Some(
            TlsInfo {
                raw_start_va: load64(img.as_slice(), d),
                raw_end_va: load64(img.as_slice(), d + 8),
                index_ptr_va: load64(img.as_slice(), d + 16),
                callbacks_va: load64(img.as_slice(), d + 24),
                zero_fill: load32(img.as_slice(), d + 32),
            },
        )
    } else {
        None
    };
    Ok(
        StagedImage {
            load_base: base,
            size_of_image: h.size_of_image,
            entry: base + h.entry_rva,
            hdr_n,
            img,
            segs,
            import_rva: h.import.0,
            import_size: h.import.1,
            export_rva: h.export.0,
            export_size: h.export.1,
            tls,
        },
    )
}

} // verus!
