//! Read-only FAT16 and FAT32: walk a path of short names and read a file's
//! cluster chain.
use vstd::prelude::*;

use crate::bytes;
use crate::bytes::{load16, load32};
use crate::gpt;
use crate::paths;
use crate::text;

verus! {

pub const EOC16: u32 = 0xFFF8;

pub const EOC32: u32 = 0x0FFF_FFF8;

pub const ATTR_LFN: u8 = 0x0F;

pub const ATTR_DIR: u8 = 0x10;

pub const NO_READ: &'static str = "fat disk read";

pub const BAD_CLUSTER: &'static str = "fat cluster number";

/// A chain of more clusters than there are numbers for them runs in a circle.
pub const ENDLESS: &'static str = "fat cluster chain";

/// Where a volume's parts lie, in sectors of the disk.
#[derive(Clone, Copy)]
pub struct Fat {
    pub sec_per_clus: u32,
    /// The first FAT.
    pub fat_start: u64,
    /// The root directory of a FAT16 volume.
    pub root_dir_lba: u64,
    pub root_dir_sectors: u32,
    /// Cluster 2.
    pub data_start_lba: u64,
    /// The first cluster of a FAT32 volume's root directory.
    pub root_cluster: u32,
    pub is_fat32: bool,
}

/// The volume whose first sector is `bpb`, at `part_lba`.
pub open spec fn volume(bpb: Seq<u8>, part_lba: u64) -> Result<Fat, &'static str> {
    let spc = bpb[13] as int;
    let rsvd = bytes::le16(bpb, 14) as int;
    let fats = bpb[16] as int;
    let roots = bytes::le16(bpb, 17) as int;
    let tot16 = bytes::le16(bpb, 19) as int;
    let fatsz16 = bytes::le16(bpb, 22) as int;
    let fatsz = if fatsz16 != 0 {
        fatsz16
    } else {
        bytes::le32(bpb, 36) as int
    };
    let total = if tot16 != 0 {
        tot16
    } else {
        bytes::le32(bpb, 32) as int
    };
    let root_secs = (roots * 32 + 511) / 512;
    let first = rsvd + fats * fatsz + root_secs;
    if bytes::le16(bpb, 510) != 0xAA55 {
        Err("FAT: no boot signature")
    } else if bytes::le16(bpb, 11) != 512 {
        Err("FAT: unsupported sector size")
    } else if spc == 0 || fats == 0 {
        Err("FAT: bad BPB")
    } else if total <= first {
        Err("FAT: BPB sizes inconsistent")
    } else {
        let big = (total - first) / spc >= 65525;
        Ok(
            Fat {
                sec_per_clus: spc as u32,
                fat_start: (part_lba + rsvd) as u64,
                root_dir_lba: (part_lba + rsvd + fats * fatsz) as u64,
                root_dir_sectors: root_secs as u32,
                data_start_lba: (part_lba + first) as u64,
                root_cluster: if big {
                    bytes::le32(bpb, 44)
                } else {
                    0
                },
                is_fat32: big,
            },
        )
    }
}

/// The volume on the disk at `part_lba`.
pub open spec fn opened(disk: Seq<u8>, part_lba: u64) -> Result<Fat, &'static str> {
    match gpt::sectors(disk, part_lba as int, 1, NO_READ) {
        Err(e) => Err(e),
        Ok(bpb) => volume(bpb, part_lba),
    }
}

/// The next cluster of a chain; nothing at its end.
pub open spec fn next_of(disk: Seq<u8>, f: Fat, clus: u32) -> Result<Option<u32>, &'static str> {
    let at = if f.is_fat32 {
        clus * 4
    } else {
        clus * 2
    };
    match gpt::sectors(disk, f.fat_start + at / 512, 1, NO_READ) {
        Err(e) => Err(e),
        Ok(b) => {
            let v = if f.is_fat32 {
                bytes::le32(b, at % 512) & 0x0FFF_FFFF
            } else {
                bytes::le16(b, at % 512) as u32
            };
            let end = if f.is_fat32 {
                EOC32
            } else {
                EOC16
            };
            if v < 2 || v >= end {
                Ok(None)
            } else {
                Ok(Some(v))
            }
        },
    }
}

/// The bytes of one cluster.
pub open spec fn cluster(disk: Seq<u8>, f: Fat, clus: u32) -> Result<Seq<u8>, &'static str> {
    if clus < 2 {
        Err(BAD_CLUSTER)
    } else {
        gpt::sectors(
            disk,
            f.data_start_lba + (clus - 2) * f.sec_per_clus,
            f.sec_per_clus as int,
            NO_READ,
        )
    }
}

/// The chain from `clus` on behind `out`, until there are `at_least` bytes (0:
/// to its end), with at most `fuel` further clusters.
pub open spec fn chain(
    disk: Seq<u8>,
    f: Fat,
    out: Seq<u8>,
    clus: u32,
    at_least: int,
    fuel: nat,
) -> Result<Seq<u8>, &'static str>
    decreases fuel,
{
    match cluster(disk, f, clus) {
        Err(e) => Err(e),
        Ok(b) => {
            let o = out + b;
            if at_least != 0 && o.len() >= at_least {
                Ok(o)
            } else {
                match next_of(disk, f, clus) {
                    Err(e) => Err(e),
                    Ok(None) => Ok(o),
                    Ok(Some(n)) => if fuel == 0 {
                        Err(ENDLESS)
                    } else {
                        chain(disk, f, o, n, at_least, (fuel - 1) as nat)
                    },
                }
            }
        },
    }
}

/// The raw entries of a directory.
pub open spec fn dir_data(disk: Seq<u8>, f: Fat, clus: u32) -> Result<Seq<u8>, &'static str> {
    if !f.is_fat32 && clus == 0 {
        gpt::sectors(disk, f.root_dir_lba as int, f.root_dir_sectors as int, NO_READ)
    } else {
        chain(disk, f, Seq::empty(), clus, 0, EOC32 as nat)
    }
}

/// The name that the first 11 bytes of an entry spell; nothing where they are
/// not UTF-8.
pub open spec fn short_name(e: Seq<u8>) -> Option<Seq<char>> {
    let b = e.subrange(0, 8);
    let x = e.subrange(8, 11);
    if vstd::utf8::valid_utf8(b) && vstd::utf8::valid_utf8(x) {
        let base = text::trimmed_end(vstd::utf8::decode_utf8(b));
        let ext = text::trimmed_end(vstd::utf8::decode_utf8(x));
        Some(
            if ext.len() == 0 {
                base
            } else {
                base.push('.') + ext
            },
        )
    } else {
        None
    }
}

/// What an entry names: its first cluster, its size, and whether it is a
/// directory.
pub open spec fn target(e: Seq<u8>) -> (u32, u32, bool) {
    (
        ((bytes::le16(e, 20) as u32) << 16) | bytes::le16(e, 26) as u32,
        bytes::le32(e, 28),
        e[11] & ATTR_DIR != 0,
    )
}

/// The entry from `off` on with the name `name`, in any case. The search ends
/// at an unused entry; deleted entries, the parts of long names and names that
/// are no text are passed over.
pub open spec fn scanned(data: Seq<u8>, off: int, name: Seq<char>) -> Option<(u32, u32, bool)>
    decreases data.len() - off,
{
    let e = data.subrange(off, off + 32);
    if off + 32 > data.len() || e[0] == 0 {
        None
    } else if e[0] == 0xE5 || e[11] & ATTR_LFN == ATTR_LFN {
        scanned(data, off + 32, name)
    } else {
        match short_name(e) {
            None => scanned(data, off + 32, name),
            Some(s) => if text::lowered(s) == text::lowered(name) {
                Some(target(e))
            } else {
                scanned(data, off + 32, name)
            },
        }
    }
}

/// What `name` stands for in the directory at `clus`.
pub open spec fn looked_up(disk: Seq<u8>, f: Fat, clus: u32, name: Seq<char>) -> Result<
    Option<(u32, u32, bool)>,
    &'static str,
> {
    match dir_data(disk, f, clus) {
        Err(e) => Err(e),
        Ok(d) => Ok(scanned(d, 0, name)),
    }
}

/// The contents of the file that the components from `k` on lead to, from the
/// directory at `clus`; nothing where one is missing or the last is a
/// directory.
pub open spec fn walked(disk: Seq<u8>, f: Fat, clus: u32, comps: Seq<Seq<char>>, k: int) -> Result<
    Option<Seq<u8>>,
    &'static str,
>
    decreases comps.len() - k,
{
    if k >= comps.len() {
        Ok(None)
    } else {
        match looked_up(disk, f, clus, comps[k]) {
            Err(e) => Err(e),
            Ok(None) => Ok(None),
            Ok(Some((fc, size, is_dir))) => if k + 1 == comps.len() {
                if is_dir {
                    Ok(None)
                } else if size == 0 || fc < 2 {
                    Ok(Some(Seq::empty()))
                } else {
                    match chain(disk, f, Seq::empty(), fc, size as int, EOC32 as nat) {
                        Err(e) => Err(e),
                        Ok(d) => Ok(
                            Some(
                                if d.len() > size {
                                    d.take(size as int)
                                } else {
                                    d
                                },
                            ),
                        ),
                    }
                }
            } else if is_dir {
                walked(disk, f, fc, comps, k + 1)
            } else {
                Ok(None)
            },
        }
    }
}

/// The contents of the file at `path`.
pub open spec fn path_data(disk: Seq<u8>, f: Fat, path: Seq<char>) -> Result<
    Option<Seq<u8>>,
    &'static str,
> {
    walked(
        disk,
        f,
        if f.is_fat32 {
            f.root_cluster
        } else {
            0
        },
        text::nonempty(text::pieces(path, true)),
        0,
    )
}

impl Fat {
    /// The parts of the volume lie below the end of the disk's numbering.
    pub open spec fn wf(self) -> bool {
        &&& self.fat_start <= 0x100_0000_0000_0000
        &&& self.data_start_lba <= 0x100_0000_0000_0000
        &&& self.sec_per_clus <= 255
    }

    /// Read the boot sector of the volume at `part_lba`.
    pub fn open(disk: &[u8], part_lba: u64) -> (r: Result<Fat, &'static str>)
        ensures
            r == opened(disk@, part_lba),
            r is Ok ==> r->Ok_0.wf(),
    {
        let total: usize = disk.len();
        let bpb = match crate::gpt::read_sectors(disk, part_lba, 1, NO_READ) {
            Ok(b) => b,
            Err(e) => { return Err(e); },
        };
        assert(part_lba < 0x80_0000_0000_0000);
        let b = bpb.as_slice();
        if load16(b, 510) != 0xAA55 {
            return Err("FAT: no boot signature");
        }
        let spc: u64 = b[13] as u64;
        let rsvd: u64 = load16(b, 14) as u64;
        let fats: u64 = b[16] as u64;
        let roots: u64 = load16(b, 17) as u64;
        let tot16: u64 = load16(b, 19) as u64;
        let fatsz16: u64 = load16(b, 22) as u64;
        let tot32: u64 = load32(b, 32) as u64;
        let fatsz32: u64 = load32(b, 36) as u64;
        if load16(b, 11) != 512 {
            return Err("FAT: unsupported sector size");
        }
        if spc == 0 || fats == 0 {
            return Err("FAT: bad BPB");
        }
        let fatsz: u64 = if fatsz16 != 0 { fatsz16 } else { fatsz32 };
        let tot: u64 = if tot16 != 0 { tot16 } else { tot32 };
        let root_secs: u64 = (roots * 32 + 511) / 512;
        assert(0 <= fats * fatsz <= 255 * 0xFFFF_FFFF) by (nonlinear_arith)
            requires
                0 <= fats <= 255,
                0 <= fatsz <= 0xFFFF_FFFF,
        ;
        let tables: u64 = fats * fatsz;
        let first: u64 = rsvd + tables + root_secs;
        if tot <= first {
            return Err("FAT: BPB sizes inconsistent");
        }
        let is_fat32: bool = (tot - first) / spc >= 65525;
        Ok(
            Fat {
                sec_per_clus: spc as u32,
                fat_start: part_lba + rsvd,
                root_dir_lba: part_lba + rsvd + tables,
                root_dir_sectors: root_secs as u32,
                data_start_lba: part_lba + first,
                root_cluster: if is_fat32 { load32(b, 44) } else { 0 },
                is_fat32,
            },
        )
    }

    fn next_clus(&self, disk: &[u8], clus: u32) -> (r: Result<Option<u32>, &'static str>)
        requires
            self.wf(),
        ensures
            r == next_of(disk@, *self, clus),
    {
        let at: u64 = if self.is_fat32 { clus as u64 * 4 } else { clus as u64 * 2 };
        let b = match crate::gpt::read_sectors(disk, self.fat_start + at / 512, 1, NO_READ) {
            Ok(b) => b,
            Err(e) => { return Err(e); },
        };
        let o: usize = (at % 512) as usize;
        let v: u32 = if self.is_fat32 {
            load32(b.as_slice(), o) & 0x0FFF_FFFF
        } else {
            load16(b.as_slice(), o) as u32
        };
        let end: u32 = if self.is_fat32 { EOC32 } else { EOC16 };
        if v < 2 || v >= end {
            Ok(None)
        } else {
            Ok(Some(v))
        }
    }

    fn read_cluster(&self, disk: &[u8], clus: u32) -> (r: Result<Vec<u8>, &'static str>)
        requires
            self.wf(),
        ensures
            match cluster(disk@, *self, clus) {
                Ok(b) => r is Ok && r->Ok_0@ == b,
                Err(e) => r == Err::<Vec<u8>, &'static str>(e),
            },
    {
        if clus < 2 {
            return Err(BAD_CLUSTER);
        }
        let n: u32 = self.sec_per_clus;
        assert(0 <= (clus - 2) * n <= 0xFFFF_FFFF * 255) by (nonlinear_arith)
            requires
                2 <= clus <= 0xFFFF_FFFF,
                0 <= n <= 255,
        ;
        let at: u64 = self.data_start_lba + (clus as u64 - 2) * n as u64;
        crate::gpt::read_sectors(disk, at, n, NO_READ)
    }

    /// The clusters of a chain, until there are `at_least` bytes (0: all).
    fn read_chain(&self, disk: &[u8], start: u32, at_least: usize) -> (r: Result<
        Vec<u8>,
        &'static str,
    >)
        requires
            self.wf(),
        ensures
            match chain(disk@, *self, Seq::empty(), start, at_least as int, EOC32 as nat) {
                Ok(b) => r is Ok && r->Ok_0@ == b,
                Err(e) => r == Err::<Vec<u8>, &'static str>(e),
            },
    {
        let mut out: Vec<u8> = Vec::new();
        let mut clus: u32 = start;
        let mut fuel: u32 = EOC32;
        let ghost want = chain(disk@, *self, Seq::empty(), start, at_least as int, EOC32 as nat);
        assert(out@ =~= Seq::empty());
        loop
            invariant
                self.wf(),
                want == chain(disk@, *self, out@, clus, at_least as int, fuel as nat),
                want == chain(disk@, *self, Seq::empty(), start, at_least as int, EOC32 as nat),
            decreases fuel,
        {
            let b = match self.read_cluster(disk, clus) {
                Ok(b) => b,
                Err(e) => { return Err(e); },
            };
            crate::bytes::extend(&mut out, b.as_slice());
            if at_least != 0 && out.len() >= at_least {
                return Ok(out);
            }
            match self.next_clus(disk, clus) {
                Err(e) => { return Err(e); },
                Ok(None) => { return Ok(out); },
                Ok(Some(n)) => {
                    if fuel == 0 {
                        return Err(ENDLESS);
                    }
                    clus = n;
                    fuel = fuel - 1;
                },
            }
        }
    }

    fn read_dir(&self, disk: &[u8], clus: u32) -> (r: Result<Vec<u8>, &'static str>)
        requires
            self.wf(),
        ensures
            match dir_data(disk@, *self, clus) {
                Ok(b) => r is Ok && r->Ok_0@ == b,
                Err(e) => r == Err::<Vec<u8>, &'static str>(e),
            },
    {
        if !self.is_fat32 && clus == 0 {
            crate::gpt::read_sectors(disk, self.root_dir_lba, self.root_dir_sectors, NO_READ)
        } else {
            self.read_chain(disk, clus, 0)
        }
    }

    fn lookup(&self, disk: &[u8], clus: u32, name: &[char]) -> (r: Result<
        Option<(u32, u32, bool)>,
        &'static str,
    >)
        requires
            self.wf(),
        ensures
            r == looked_up(disk@, *self, clus, name@),
    {
        let data = match self.read_dir(disk, clus) {
            Ok(d) => d,
            Err(e) => { return Err(e); },
        };
        Ok(find_entry(data.as_slice(), name))
    }

    /// Read the file at a path with `/` or `\` between its parts.
    pub fn read_path(&self, disk: &[u8], path: &str) -> (r: Result<
        Option<Vec<u8>>,
        &'static str,
    >)
        requires
            self.wf(),
        ensures
            match path_data(disk@, *self, path@) {
                Ok(Some(b)) => r matches Ok(Some(v)) && v@ == b,
                Ok(None) => r matches Ok(None),
                Err(e) => r == Err::<Option<Vec<u8>>, &'static str>(e),
            },
    {
        let chars = crate::text::chars_of(path);
        let comps = crate::text::components_of(chars.as_slice(), true);
        let n: usize = comps.len();
        let mut clus: u32 = if self.is_fat32 { self.root_cluster } else { 0 };
        let mut k: usize = 0;
        let ghost cs = text::texts(comps@);
        let ghost want = path_data(disk@, *self, path@);
        while k < n
            invariant
                k <= n,
                n == comps@.len(),
                self.wf(),
                cs == text::texts(comps@),
                want == path_data(disk@, *self, path@),
                want == walked(disk@, *self, clus, cs, k as int),
            decreases n - k,
        {
            assert(cs[k as int] == comps@[k as int]@);
            let (fc, size, is_dir) = match self.lookup(disk, clus, comps[k].as_slice()) {
                Err(e) => { return Err(e); },
                Ok(None) => { return Ok(None); },
                Ok(Some(t)) => t,
            };
            if k + 1 == n {
                if is_dir {
                    return Ok(None);
                }
                if size == 0 || fc < 2 {
                    let none: Vec<u8> = Vec::new();
                    assert(none@ =~= Seq::<u8>::empty());
                    return Ok(Some(none));
                }
                let d = match self.read_chain(disk, fc, size as usize) {
                    Ok(d) => d,
                    Err(e) => { return Err(e); },
                };
                if d.len() > size as usize {
                    let cut = crate::bytes::sub(d.as_slice(), 0, size as usize);
                    assert(cut@ =~= d@.take(size as int));
                    return Ok(Some(cut));
                }
                return Ok(Some(d));
            }
            if !is_dir {
                return Ok(None);
            }
            clus = fc;
            k = k + 1;
        }
        Ok(None)
    }
}

fn name_part(b: &[u8]) -> (r: Option<Vec<char>>)
    ensures
        match r {
            Some(s) => vstd::utf8::valid_utf8(b@) && s@ == text::trimmed_end(
                vstd::utf8::decode_utf8(b@),
            ),
            None => !vstd::utf8::valid_utf8(b@),
        },
{
    match crate::text::utf8_text(b) {
        None => None,
        Some(t) => {
            proof {
                vstd::utf8::encode_utf8_decode_utf8(t@);
            }
            let c = crate::text::chars_of(t);
            Some(crate::text::trim_end(c.as_slice()))
        },
    }
}

fn entry_name(e: &[u8]) -> (r: Option<Vec<char>>)
    requires
        e@.len() == 32,
    ensures
        match short_name(e@) {
            Some(s) => r is Some && r->0@ == s,
            None => r is None,
        },
{
    let b = crate::bytes::sub(e, 0, 8);
    let x = crate::bytes::sub(e, 8, 11);
    assert(b@ =~= e@.subrange(0, 8));
    assert(x@ =~= e@.subrange(8, 11));
    match (name_part(b.as_slice()), name_part(x.as_slice())) {
        (Some(base), Some(ext)) => {
            let mut s = base;
            if ext.len() > 0 {
                s.push('.');
                crate::text::extend_chars(&mut s, ext.as_slice());
            }
            Some(s)
        },
        _ => None,
    }
}

fn find_entry(data: &[u8], name: &[char]) -> (r: Option<(u32, u32, bool)>)
    ensures
        r == scanned(data@, 0, name@),
{
    let n: usize = data.len();
    let want = crate::text::to_lowered(name);
    let mut off: usize = 0;
    while n - off >= 32
        invariant
            off <= n,
            n == data@.len(),
            want@ == text::lowered(name@),
            scanned(data@, 0, name@) == scanned(data@, off as int, name@),
        decreases n - off,
    {
        let e = crate::bytes::sub(data, off, off + 32);
        assert(e@ =~= data@.subrange(off as int, off + 32));
        if e[0] == 0 {
            return None;
        }
        if e[0] != 0xE5 && e[11] & ATTR_LFN != ATTR_LFN {
            match entry_name(e.as_slice()) {
                None => {},
                Some(s) => {
                    let low = crate::text::to_lowered(s.as_slice());
                    if crate::text::same_chars(low.as_slice(), want.as_slice()) {
                        let clus: u32 = ((load16(e.as_slice(), 20) as u32) << 16) | load16(
                            e.as_slice(),
                            26,
                        ) as u32;
                        return Some((clus, load32(e.as_slice(), 28), e[11] & ATTR_DIR != 0));
                    }
                },
            }
        }
        off = off + 32;
    }
    None
}

/// A directory finds a name in any case.
pub proof fn law_names_ignore_case(data: Seq<u8>, off: int, a: Seq<char>, b: Seq<char>)
    requires
        text::lowered(a) == text::lowered(b),
    ensures
        scanned(data, off, a) == scanned(data, off, b),
    decreases data.len() - off,
{
    if off + 32 <= data.len() {
        law_names_ignore_case(data, off + 32, a, b);
    }
}

proof fn lemma_walked_ignores_case(
    disk: Seq<u8>,
    f: Fat,
    clus: u32,
    a: Seq<Seq<char>>,
    b: Seq<Seq<char>>,
    k: int,
)
    requires
        0 <= k,
        a.len() == b.len(),
        forall|i: int| 0 <= i < a.len() ==> text::lowered(#[trigger] a[i]) == text::lowered(b[i]),
    ensures
        walked(disk, f, clus, a, k) == walked(disk, f, clus, b, k),
    decreases a.len() - k,
{
    if k < a.len() {
        assert(text::lowered(a[k]) == text::lowered(b[k]));
        match dir_data(disk, f, clus) {
            Err(_) => {},
            Ok(d) => {
                law_names_ignore_case(d, 0, a[k], b[k]);
            },
        }
        match looked_up(disk, f, clus, a[k]) {
            Ok(Some((fc, _, _))) => {
                lemma_walked_ignores_case(disk, f, fc, a, b, k + 1);
            },
            _ => {},
        }
    }
}

/// A volume finds a file under any case of its path, with either separator
/// where one stands.
pub proof fn law_case_and_separators_make_no_difference(
    disk: Seq<u8>,
    f: Fat,
    s: Seq<char>,
    t: Seq<char>,
)
    requires
        paths::alike(s, t, true),
    ensures
        path_data(disk, f, s) == path_data(disk, f, t),
{
    paths::law_separators_and_case_are_alike(s, t, true);
    let a = paths::parts(s, true);
    let b = paths::parts(t, true);
    let la = paths::low_parts(s, true);
    let lb = paths::low_parts(t, true);
    assert(a.len() == la.len() && b.len() == lb.len());
    assert forall|i: int| 0 <= i < a.len() implies text::lowered(#[trigger] a[i]) == text::lowered(
        b[i],
    ) by {
        assert(la[i] == lb[i]);
    }
    let root = if f.is_fat32 {
        f.root_cluster
    } else {
        0
    };
    lemma_walked_ignores_case(disk, f, root, a, b, 0);
}

/// Separators may be repeated, and may stand at the ends.
pub proof fn law_extra_separators_make_no_difference(
    disk: Seq<u8>,
    f: Fat,
    a: Seq<char>,
    c: char,
    more: Seq<char>,
    b: Seq<char>,
)
    requires
        text::is_sep(c, true),
        paths::blank(more, true),
    ensures
        path_data(disk, f, a.push(c) + more + b) == path_data(disk, f, a.push(c) + b),
        path_data(disk, f, more + a) == path_data(disk, f, a),
        path_data(disk, f, a + more) == path_data(disk, f, a),
{
    paths::law_extra_separators_change_nothing(a, c, more, b, true);
}

/// A path without a component names no file.
pub proof fn law_separators_name_no_file(disk: Seq<u8>, f: Fat, path: Seq<char>)
    requires
        paths::blank(path, true),
    ensures
        path_data(disk, f, path) == Ok::<Option<Seq<u8>>, &'static str>(None),
{
    paths::law_separators_name_nothing(path, true);
}

/// The entry that the components from `k` on lead to, from the directory at
/// `clus`; nothing where one is missing, or one before the last is no directory.
pub open spec fn entry_along(
    disk: Seq<u8>,
    f: Fat,
    clus: u32,
    comps: Seq<Seq<char>>,
    k: int,
) -> Result<Option<(u32, u32, bool)>, &'static str>
    decreases comps.len() - k,
{
    if k >= comps.len() {
        Ok(None)
    } else {
        match looked_up(disk, f, clus, comps[k]) {
            Err(e) => Err(e),
            Ok(None) => Ok(None),
            Ok(Some((fc, size, is_dir))) => if k + 1 == comps.len() {
                Ok(Some((fc, size, is_dir)))
            } else if is_dir {
                entry_along(disk, f, fc, comps, k + 1)
            } else {
                Ok(None)
            },
        }
    }
}

/// What a read gives is what the entry at the end of the path says: nothing
/// where there is none or where it is a directory, an empty file where its size
/// is 0, and otherwise its cluster chain, cut to its size.
pub proof fn law_read_gives_what_the_entry_says(
    disk: Seq<u8>,
    f: Fat,
    clus: u32,
    comps: Seq<Seq<char>>,
    k: int,
)
    requires
        0 <= k,
    ensures
        match entry_along(disk, f, clus, comps, k) {
            Err(e) => walked(disk, f, clus, comps, k) == Err::<Option<Seq<u8>>, &'static str>(e),
            Ok(None) => walked(disk, f, clus, comps, k) == Ok::<Option<Seq<u8>>, &'static str>(
                None,
            ),
            Ok(Some((fc, size, is_dir))) => {
                let r = walked(disk, f, clus, comps, k);
                &&& is_dir ==> r == Ok::<Option<Seq<u8>>, &'static str>(None)
                &&& !is_dir && size == 0 ==> r == Ok::<Option<Seq<u8>>, &'static str>(
                    Some(Seq::empty()),
                )
                &&& !is_dir && size > 0 && fc >= 2 ==> match chain(
                    disk,
                    f,
                    Seq::empty(),
                    fc,
                    size as int,
                    EOC32 as nat,
                ) {
                    Err(e) => r == Err::<Option<Seq<u8>>, &'static str>(e),
                    Ok(d) => {
                        &&& r matches Ok(Some(b))
                        &&& b.len() <= size
                        &&& b.is_prefix_of(d)
                        &&& d.len() >= size <==> b.len() == size
                    },
                }
                &&& r matches Ok(Some(b)) ==> b.len() <= size
            },
        },
    decreases comps.len() - k,
{
    if k < comps.len() {
        match looked_up(disk, f, clus, comps[k]) {
            Ok(Some((fc, _, is_dir))) => if k + 1 < comps.len() && is_dir {
                law_read_gives_what_the_entry_says(disk, f, fc, comps, k + 1);
            },
            _ => {},
        }
    }
}

} // verus!
