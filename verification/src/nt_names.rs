//! Names in a PE process's memory: C strings, counted strings, the loader's
//! module list, and the export directories of mapped modules.
//!
//! Whatever is read from memory that is not mapped comes to nothing.
use vstd::prelude::*;

use crate::pe;
use crate::process;
use crate::task::Task;
use crate::text;

verus! {

pub type Mem = Map<int, u8>;

// --- strings ---

/// `acc` and the bytes up to the NUL, at most `left` of them, each as the
/// character with its number.
pub open spec fn latin_from(m: Mem, p: int, acc: Seq<char>, left: nat) -> Option<Seq<char>>
    decreases left,
{
    if left == 0 {
        Some(acc)
    } else if !m.contains_key(p) {
        None
    } else if m[p] == 0 {
        Some(acc)
    } else {
        latin_from(m, p + 1, acc.push(m[p] as char), (left - 1) as nat)
    }
}

/// A NUL-terminated string, cut after 4096 bytes.
pub open spec fn latin(m: Mem, p: u64) -> Option<Seq<char>> {
    latin_from(m, p as int, Seq::empty(), 4096)
}

#[verifier::loop_isolation(false)]
pub fn user_cstr(t: &Task, ptr: u64) -> (r: Option<Vec<char>>)
    requires
        t.wf(),
    ensures
        match latin(t@.space.mem, ptr) {
            Some(s) => r is Some && r->0@ == s,
            None => r is None,
        },
{
    let mut s: Vec<char> = Vec::new();
    let mut p: u64 = ptr;
    let mut left: u64 = 4096;
    while left > 0
        invariant
            t.wf(),
            left <= 4096,
            latin(t@.space.mem, ptr) == latin_from(t@.space.mem, p as int, s@, left as nat),
        decreases left,
    {
        match t.load8(p) {
            None => { return None; },
            Some(b) => {
                if b == 0 {
                    return Some(s);
                }
                s.push(b as char);
            },
        }
        left = left - 1;
        if p == u64::MAX {
            proof {
                t.lemma_memory_ends(p + 1);
                assert(latin(t@.space.mem, ptr) == latin_from(
                    t@.space.mem,
                    p + 1,
                    s@,
                    left as nat,
                ));
            }
            return if left == 0 { Some(s) } else { None };
        }
        p = p + 1;
    }
    Some(s)
}

/// The character for a UTF-16 unit; `?` for anything but ASCII.
pub open spec fn ascii_unit(c: u16) -> char {
    if c < 0x80 {
        c as char
    } else {
        '?'
    }
}

/// `acc` and the units `[i, n)` at `buf`.
pub open spec fn units_from(m: Mem, buf: int, acc: Seq<char>, i: int, n: int) -> Option<Seq<char>>
    decreases n - i,
{
    if i >= n {
        Some(acc)
    } else {
        match process::word16(m, buf + i * 2) {
            None => None,
            Some(c) => units_from(m, buf, acc.push(ascii_unit(c)), i + 1, n),
        }
    }
}

/// A `UNICODE_STRING` as ASCII, at most 260 characters of it; a null pointer
/// is the empty string.
pub open spec fn unicode(m: Mem, us: u64) -> Option<Seq<char>> {
    if us == 0 {
        Some(Seq::empty())
    } else {
        match (process::word16(m, us as int), process::word64(m, us + 8)) {
            (Some(len), Some(buf)) => units_from(
                m,
                buf as int,
                Seq::empty(),
                0,
                if len / 2 < 260 {
                    (len / 2) as int
                } else {
                    260
                },
            ),
            _ => None,
        }
    }
}

#[verifier::loop_isolation(false)]
pub fn unicode_string_ascii(t: &Task, us: u64) -> (r: Option<Vec<char>>)
    requires
        t.wf(),
    ensures
        match unicode(t@.space.mem, us) {
            Some(s) => r is Some && r->0@ == s,
            None => r is None,
        },
{
    let mut s: Vec<char> = Vec::new();
    if us == 0 {
        assert(s@ =~= Seq::empty());
        return Some(s);
    }
    let len: u16 = match t.load16(us, 0) {
        Some(v) => v,
        None => { return None; },
    };
    let buf: u64 = match t.load64(us, 8) {
        Some(v) => v,
        None => { return None; },
    };
    let n: u64 = if len / 2 < 260 { (len / 2) as u64 } else { 260 };
    let mut i: u64 = 0;
    while i < n
        invariant
            i <= n <= 260,
            t.wf(),
            units_from(t@.space.mem, buf as int, Seq::empty(), 0, n as int) == units_from(
                t@.space.mem,
                buf as int,
                s@,
                i as int,
                n as int,
            ),
        decreases n - i,
    {
        match t.load16(buf, i * 2) {
            None => { return None; },
            Some(c) => {
                s.push(if c < 0x80 { (c as u8) as char } else { '?' });
            },
        }
        i = i + 1;
    }
    Some(s)
}

/// A module name as the loader list is searched for it: no directory, lower
/// case, `.dll` where it has no extension.
pub open spec fn mod_name(name: Seq<char>) -> Seq<char> {
    pe::dll_form(text::pieces(name, true).last())
}

/// Normalise a module name for a search of the loader list.
pub fn normalize_mod(name: &[char]) -> (r: Vec<char>)
    ensures
        r@ == mod_name(name@),
{
    let parts = crate::text::split(name, true);
    let n: usize = parts.len();
    assert(text::texts(parts@).last() == parts@[n - 1]@);
    crate::pe::with_dll_suffix(parts[n - 1].as_slice())
}

// --- the loader's module list ---

/// Whether the UTF-16 text at `buf` spells `w` from unit `i` on, without
/// regard to ASCII case.
pub open spec fn spells(m: Mem, buf: int, w: Seq<u8>, i: int) -> Option<bool>
    decreases w.len() - i,
{
    if i >= w.len() {
        Some(true)
    } else {
        match process::word16(m, buf + i * 2) {
            None => None,
            Some(c) => if c > 0x7F || text::lower8(c as u8) != w[i] {
                Some(false)
            } else {
                spells(m, buf, w, i + 1)
            },
        }
    }
}

/// Whether the `n`-unit text at `buf` is `w`.
pub open spec fn wide_is(m: Mem, buf: u64, n: int, w: Seq<u8>) -> Option<bool> {
    if w.len() != n {
        Some(false)
    } else {
        spells(m, buf as int, w, 0)
    }
}

#[verifier::loop_isolation(false)]
pub fn utf16_eq_ci(t: &Task, buf: u64, n: u64, want: &[u8]) -> (r: Option<bool>)
    requires
        t.wf(),
    ensures
        r == wide_is(t@.space.mem, buf, n as int, want@),
{
    let len: usize = want.len();
    if len as u64 != n {
        return Some(false);
    }
    let mut i: usize = 0;
    while i < len
        invariant
            i <= len,
            len == want@.len(),
            t.wf(),
            spells(t@.space.mem, buf as int, want@, 0) == spells(
                t@.space.mem,
                buf as int,
                want@,
                i as int,
            ),
        decreases len - i,
    {
        if i as u64 > u64::MAX / 2 {
            proof {
                t.lemma_memory_ends(buf + i * 2);
            }
            return None;
        }
        match t.load16(buf, i as u64 * 2) {
            None => { return None; },
            Some(c) => {
                if c > 0x7F || crate::text::to_lower8(c as u8) != want[i] {
                    return Some(false);
                }
            },
        }
        i = i + 1;
    }
    Some(true)
}

/// The base of the first entry from `cur` on whose name is `w`, following at
/// most `left` links; 0 where there is none.
pub open spec fn listed_at(m: Mem, head: u64, cur: u64, w: Seq<u8>, left: nat) -> Option<u64>
    decreases left,
{
    if left == 0 || cur == head || cur == 0 {
        Some(0)
    } else {
        match (process::word16(m, cur + 0x58), process::word64(m, cur + 0x60)) {
            (Some(len), Some(buf)) => {
                let hit = if buf != 0 && len >= 2 {
                    wide_is(m, buf, (len / 2) as int, w)
                } else {
                    Some(false)
                };
                match hit {
                    None => None,
                    Some(true) => process::word64(m, cur + 0x30),
                    Some(false) => match process::word64(m, cur as int) {
                        None => None,
                        Some(next) => listed_at(m, head, next, w, (left - 1) as nat),
                    },
                }
            },
            _ => None,
        }
    }
}

/// The base of the module called `want`, found from the thread's TEB; 0 where
/// there is none.
pub open spec fn module_base(m: Mem, gs: u64, want: Seq<char>) -> Option<u64> {
    if gs == 0 {
        Some(0)
    } else {
        match process::word64(m, gs + 0x60) {
            None => None,
            Some(peb) => if peb == 0 {
                Some(0)
            } else {
                match process::word64(m, peb + 0x18) {
                    None => None,
                    Some(ldr) => if ldr == 0 {
                        Some(0)
                    } else if ldr + 0x10 > u64::MAX {
                        None
                    } else {
                        match process::word64(m, ldr + 0x10) {
                            None => None,
                            Some(first) => listed_at(
                                m,
                                (ldr + 0x10) as u64,
                                first,
                                vstd::utf8::encode_utf8(want),
                                64,
                            ),
                        }
                    },
                }
            },
        }
    }
}

/// Walk the loader's list for a module by its base name.
#[verifier::loop_isolation(false)]
pub fn ldr_find(t: &Task, gs: u64, want: &[char]) -> (r: Option<u64>)
    requires
        t.wf(),
    ensures
        r == module_base(t@.space.mem, gs, want@),
{
    if gs == 0 {
        return Some(0);
    }
    let peb: u64 = match t.load64(gs, 0x60) {
        Some(v) => v,
        None => { return None; },
    };
    if peb == 0 {
        return Some(0);
    }
    let ldr: u64 = match t.load64(peb, 0x18) {
        Some(v) => v,
        None => { return None; },
    };
    if ldr == 0 {
        return Some(0);
    }
    if ldr > u64::MAX - 0x10 {
        return None;
    }
    let head: u64 = ldr + 0x10;
    let mut cur: u64 = match t.load64(ldr, 0x10) {
        Some(v) => v,
        None => { return None; },
    };
    let name = crate::text::string_of(want);
    let w = name.as_str().as_bytes();
    let ghost first = cur;
    let mut left: u64 = 64;
    while left > 0 && cur != head && cur != 0
        invariant
            t.wf(),
            left <= 64,
            w@ == vstd::utf8::encode_utf8(want@),
            listed_at(t@.space.mem, head, first, w@, 64) == listed_at(
                t@.space.mem,
                head,
                cur,
                w@,
                left as nat,
            ),
        decreases left,
    {
        let len: u16 = match t.load16(cur, 0x58) {
            Some(v) => v,
            None => { return None; },
        };
        let buf: u64 = match t.load64(cur, 0x60) {
            Some(v) => v,
            None => { return None; },
        };
        if buf != 0 && len >= 2 {
            match utf16_eq_ci(t, buf, (len / 2) as u64, w) {
                None => { return None; },
                Some(true) => { return t.load64(cur, 0x30); },
                Some(false) => {},
            }
        }
        cur = match t.load64(cur, 0) {
            Some(v) => v,
            None => { return None; },
        };
        left = left - 1;
    }
    Some(0)
}

// --- export directories ---

/// An export directory: addresses of its tables in the mapped module.
#[derive(Clone, Copy)]
pub struct ExportDir {
    pub base: u64,
    pub eat: u64,
    pub enpt: u64,
    pub ords: u64,
    pub n_names: u32,
    pub n_funcs: u32,
    pub ord_base: u32,
    pub dir_rva: u32,
    pub dir_size: u32,
}

/// The sum of an address and an offset, where it is an address.
pub open spec fn sum(a: u64, b: u32) -> Option<u64> {
    if a + b <= u64::MAX {
        Some((a + b) as u64)
    } else {
        None
    }
}

fn plus(a: u64, b: u32) -> (r: Option<u64>)
    ensures
        r == sum(a, b),
{
    if b as u64 > u64::MAX - a {
        None
    } else {
        Some(a + b as u64)
    }
}

/// The tables of the directory at `ed`.
pub open spec fn dir_tables(m: Mem, base: u64, ed: u64, rva: u32, size: u32) -> Option<ExportDir> {
    match (
        process::word32(m, ed + 0x1C),
        process::word32(m, ed + 0x20),
        process::word32(m, ed + 0x24),
        process::word32(m, ed + 0x18),
        process::word32(m, ed + 0x14),
        process::word32(m, ed + 0x10),
    ) {
        (Some(eat), Some(enpt), Some(ords), Some(nn), Some(nf), Some(ob)) => match (
            sum(base, eat),
            sum(base, enpt),
            sum(base, ords),
        ) {
            (Some(e), Some(p), Some(o)) => Some(
                ExportDir {
                    base,
                    eat: e,
                    enpt: p,
                    ords: o,
                    n_names: nn,
                    n_funcs: nf,
                    ord_base: ob,
                    dir_rva: rva,
                    dir_size: size,
                },
            ),
            _ => None,
        },
        _ => None,
    }
}

/// The export directory of the module at `base`: nothing inside where the
/// module is no PE32+ image or exports nothing.
pub open spec fn export_dir(m: Mem, base: u64) -> Option<Option<ExportDir>> {
    if base == 0 {
        Some(None)
    } else {
        match process::word32(m, base + 0x3C) {
            None => None,
            Some(off) => match sum(base, off) {
                None => None,
                Some(pe) => match process::word32(m, pe as int) {
                    None => None,
                    Some(sig) => if sig != 0x4550 {
                        Some(None)
                    } else {
                        export_slot(m, base, pe)
                    },
                },
            },
        }
    }
}

/// The same, once the signature at `pe` was seen.
pub open spec fn export_slot(m: Mem, base: u64, pe: u64) -> Option<Option<ExportDir>> {
    match process::word16(m, pe + 24) {
        None => None,
        Some(magic) => if magic != 0x20B {
            Some(None)
        } else {
            match process::word32(m, pe + 132) {
                None => None,
                Some(dirs) => if dirs < 1 {
                    Some(None)
                } else {
                    match (process::word32(m, pe + 136), process::word32(m, pe + 140)) {
                        (Some(rva), Some(size)) => if rva == 0 {
                            Some(None)
                        } else {
                            match sum(base, rva) {
                                None => None,
                                Some(ed) => match dir_tables(m, base, ed, rva, size) {
                                    None => None,
                                    Some(d) => Some(Some(d)),
                                },
                            }
                        },
                        _ => None,
                    }
                },
            }
        },
    }
}

impl ExportDir {
    fn tables(t: &Task, base: u64, ed: u64, rva: u32, size: u32) -> (r: Option<ExportDir>)
        requires
            t.wf(),
        ensures
            r == dir_tables(t@.space.mem, base, ed, rva, size),
    {
        let eat: u32 = match t.load32(ed, 0x1C) {
            Some(v) => v,
            None => { return None; },
        };
        let enpt: u32 = match t.load32(ed, 0x20) {
            Some(v) => v,
            None => { return None; },
        };
        let ords: u32 = match t.load32(ed, 0x24) {
            Some(v) => v,
            None => { return None; },
        };
        let n_names: u32 = match t.load32(ed, 0x18) {
            Some(v) => v,
            None => { return None; },
        };
        let n_funcs: u32 = match t.load32(ed, 0x14) {
            Some(v) => v,
            None => { return None; },
        };
        let ord_base: u32 = match t.load32(ed, 0x10) {
            Some(v) => v,
            None => { return None; },
        };
        match (plus(base, eat), plus(base, enpt), plus(base, ords)) {
            (Some(e), Some(p), Some(o)) => Some(
                ExportDir {
                    base,
                    eat: e,
                    enpt: p,
                    ords: o,
                    n_names,
                    n_funcs,
                    ord_base,
                    dir_rva: rva,
                    dir_size: size,
                },
            ),
            _ => None,
        }
    }

    /// Find and check the export directory of the module mapped at `base`.
    pub fn parse(t: &Task, base: u64) -> (r: Option<Option<ExportDir>>)
        requires
            t.wf(),
        ensures
            r == export_dir(t@.space.mem, base),
    {
        if base == 0 {
            return Some(None);
        }
        let off: u32 = match t.load32(base, 0x3C) {
            Some(v) => v,
            None => { return None; },
        };
        let pe: u64 = match plus(base, off) {
            Some(v) => v,
            None => { return None; },
        };
        match t.load32(pe, 0) {
            Some(sig) => {
                if sig != 0x4550 {
                    return Some(None);
                }
            },
            None => { return None; },
        }
        match t.load16(pe, 24) {
            Some(magic) => {
                if magic != 0x20B {
                    return Some(None);
                }
            },
            None => { return None; },
        }
        match t.load32(pe, 132) {
            Some(dirs) => {
                if dirs < 1 {
                    return Some(None);
                }
            },
            None => { return None; },
        }
        let rva: u32 = match t.load32(pe, 136) {
            Some(v) => v,
            None => { return None; },
        };
        let size: u32 = match t.load32(pe, 140) {
            Some(v) => v,
            None => { return None; },
        };
        if rva == 0 {
            return Some(None);
        }
        match plus(base, rva) {
            None => None,
            Some(ed) => match ExportDir::tables(t, base, ed, rva, size) {
                Some(d) => Some(Some(d)),
                None => None,
            },
        }
    }
}

pub open spec fn hops_left(depth: int) -> int {
    if depth <= 9 {
        9 - depth
    } else {
        0
    }
}

/// The address in slot `idx`, forwarders followed; 0 on any problem.
pub open spec fn slot_addr(m: Mem, gs: u64, d: ExportDir, idx: int, depth: int) -> Option<i64>
    decreases hops_left(depth), 1int, 0int,
{
    if idx >= d.n_funcs || idx < 0 {
        Some(0)
    } else {
        match process::word32(m, d.eat + idx * 4) {
            None => None,
            Some(f) => if f == 0 {
                Some(0)
            } else if f < d.dir_rva || f >= d.dir_rva + d.dir_size {
                match sum(d.base, f) {
                    Some(a) => Some(a as i64),
                    None => None,
                }
            } else if depth > 8 {
                Some(0)
            } else {
                match sum(d.base, f) {
                    None => None,
                    Some(at) => match latin(m, at) {
                        None => None,
                        Some(s) => forwarded(m, gs, s, depth),
                    },
                }
            },
        }
    }
}

/// Where the forwarder `module.function` or `module.#ordinal` leads.
pub open spec fn forwarded(m: Mem, gs: u64, s: Seq<char>, depth: int) -> Option<i64>
    decreases hops_left(depth), 0int, 0int,
{
    match text::last_at(s, '.', s.len() as int) {
        None => Some(0),
        Some(dot) => {
            let fun = s.skip(dot + 1);
            match module_base(m, gs, mod_name(s.take(dot))) {
                None => None,
                Some(base) => if base == 0 {
                    Some(0)
                } else if depth > 8 {
                    Some(0)
                } else if fun.len() > 0 && fun[0] == '#' {
                    match text::u16_of(fun.skip(1)) {
                        None => Some(0),
                        Some(o) => ordinal_addr(m, gs, base, o, depth + 1),
                    }
                } else {
                    name_addr(m, gs, base, fun, depth + 1)
                },
            }
        },
    }
}

/// The address of the export called `name`; 0 where there is none.
pub open spec fn name_addr(m: Mem, gs: u64, base: u64, name: Seq<char>, depth: int) -> Option<i64>
    decreases hops_left(depth), 3int, 0int,
{
    match export_dir(m, base) {
        None => None,
        Some(None) => Some(0),
        Some(Some(d)) => name_from(m, gs, d, name, 0, depth),
    }
}

/// The same, from name `i` on.
pub open spec fn name_from(
    m: Mem,
    gs: u64,
    d: ExportDir,
    name: Seq<char>,
    i: int,
    depth: int,
) -> Option<i64>
    decreases hops_left(depth), 2int, d.n_names - i,
{
    if i >= d.n_names {
        Some(0)
    } else {
        match process::word32(m, d.enpt + i * 4) {
            None => None,
            Some(rva) => match sum(d.base, rva) {
                None => None,
                Some(at) => match latin(m, at) {
                    None => None,
                    Some(s) => if s == name {
                        match process::word16(m, d.ords + i * 2) {
                            None => None,
                            Some(ord) => slot_addr(m, gs, d, ord as int, depth),
                        }
                    } else {
                        name_from(m, gs, d, name, i + 1, depth)
                    },
                },
            },
        }
    }
}

/// The address of the export with ordinal `ord`; 0 where there is none.
pub open spec fn ordinal_addr(m: Mem, gs: u64, base: u64, ord: u16, depth: int) -> Option<i64>
    decreases hops_left(depth), 2int, 0int,
{
    match export_dir(m, base) {
        None => None,
        Some(None) => Some(0),
        Some(Some(d)) => slot_addr(m, gs, d, ord - d.ord_base, depth),
    }
}

impl ExportDir {
    /// The address in a slot, forwarders followed; 0 on any problem.
    pub fn resolve_slot(&self, t: &Task, gs: u64, idx: u32, depth: u32) -> (r: Option<i64>)
        requires
            t.wf(),
            depth <= 9,
        ensures
            r == slot_addr(t@.space.mem, gs, *self, idx as int, depth as int),
        decreases 9 - depth, 1int, 0int,
    {
        if idx >= self.n_funcs {
            return Some(0);
        }
        let f: u32 = match t.load32(self.eat, idx as u64 * 4) {
            Some(v) => v,
            None => { return None; },
        };
        if f == 0 {
            return Some(0);
        }
        if f < self.dir_rva || f as u64 >= self.dir_rva as u64 + self.dir_size as u64 {
            return match plus(self.base, f) {
                Some(a) => Some(a as i64),
                None => None,
            };
        }
        if depth > 8 {
            return Some(0);
        }
        let at: u64 = match plus(self.base, f) {
            Some(a) => a,
            None => { return None; },
        };
        match user_cstr(t, at) {
            None => None,
            Some(s) => follow(t, gs, s.as_slice(), depth),
        }
    }
}

/// Where a forwarder leads.
fn follow(t: &Task, gs: u64, s: &[char], depth: u32) -> (r: Option<i64>)
    requires
        t.wf(),
        depth <= 8,
    ensures
        r == forwarded(t@.space.mem, gs, s@, depth as int),
    decreases 9 - depth, 0int, 0int,
{
    let dot: usize = match crate::text::find_last(s, '.') {
        Some(d) => d,
        None => { return Some(0); },
    };
    let n: usize = s.len();
    let dll = vstd::slice::slice_subrange(s, 0, dot);
    let fun = vstd::slice::slice_subrange(s, dot + 1, n);
    assert(dll@ =~= s@.take(dot as int));
    assert(fun@ =~= s@.skip(dot + 1));
    let want = normalize_mod(dll);
    let base: u64 = match ldr_find(t, gs, want.as_slice()) {
        Some(v) => v,
        None => { return None; },
    };
    if base == 0 {
        return Some(0);
    }
    let len: usize = fun.len();
    if len > 0 && fun[0] == '#' {
        let num = vstd::slice::slice_subrange(fun, 1, len);
        assert(num@ =~= fun@.skip(1));
        match crate::text::parse_u16(num) {
            None => Some(0),
            Some(o) => export_by_ordinal(t, gs, base, o, depth + 1),
        }
    } else {
        export_by_name(t, gs, base, fun, depth + 1)
    }
}

/// The address of a module's export by name; 0 where there is none.
pub fn export_by_name(t: &Task, gs: u64, base: u64, name: &[char], depth: u32) -> (r: Option<i64>)
    requires
        t.wf(),
        depth <= 9,
    ensures
        r == name_addr(t@.space.mem, gs, base, name@, depth as int),
    decreases 9 - depth, 2int, 0int,
{
    let d = match ExportDir::parse(t, base) {
        None => { return None; },
        Some(None) => { return Some(0); },
        Some(Some(d)) => d,
    };
    let mut i: u32 = 0;
    while i < d.n_names
        invariant
            t.wf(),
            depth <= 9,
            i <= d.n_names,
            name_from(t@.space.mem, gs, d, name@, 0, depth as int) == name_from(
                t@.space.mem,
                gs,
                d,
                name@,
                i as int,
                depth as int,
            ),
            name_addr(t@.space.mem, gs, base, name@, depth as int) == name_from(
                t@.space.mem,
                gs,
                d,
                name@,
                0,
                depth as int,
            ),
        decreases d.n_names - i,
    {
        let rva: u32 = match t.load32(d.enpt, i as u64 * 4) {
            Some(v) => v,
            None => { return None; },
        };
        let at: u64 = match plus(d.base, rva) {
            Some(a) => a,
            None => { return None; },
        };
        match user_cstr(t, at) {
            None => { return None; },
            Some(s) => {
                if crate::text::same_chars(s.as_slice(), name) {
                    return match t.load16(d.ords, i as u64 * 2) {
                        None => None,
                        Some(ord) => d.resolve_slot(t, gs, ord as u32, depth),
                    };
                }
            },
        }
        i = i + 1;
    }
    Some(0)
}

/// The address of a module's export by ordinal; 0 where there is none.
pub fn export_by_ordinal(t: &Task, gs: u64, base: u64, ord: u16, depth: u32) -> (r: Option<i64>)
    requires
        t.wf(),
        depth <= 9,
    ensures
        r == ordinal_addr(t@.space.mem, gs, base, ord, depth as int),
    decreases 9 - depth, 2int, 0int,
{
    let d = match ExportDir::parse(t, base) {
        None => { return None; },
        Some(None) => { return Some(0); },
        Some(Some(d)) => d,
    };
    if (ord as u32) < d.ord_base {
        return Some(0);
    }
    d.resolve_slot(t, gs, ord as u32 - d.ord_base, depth)
}

// --- paths ---

/// A Windows path as a native one: a leading drive, whose letter is one byte
/// long, dropped; absolute, single slashes.
pub open spec fn native_path(win: Seq<char>) -> Seq<char> {
    let s = if win.len() >= 3 && (win[0] as u32) < 0x80 && win[1] == ':' && (win[2] == '\\' || win[2]
        == '/') {
        win.skip(2)
    } else {
        win
    };
    seq!['/'] + text::join(text::nonempty(text::pieces(s, true)), '/')
}

/// Turn a Windows path into a native one.
pub fn win_path_to_thos(win: &[char]) -> (r: Vec<char>)
    ensures
        r@ == native_path(win@),
{
    let n: usize = win.len();
    let s = if n >= 3 && (win[0] as u32) < 0x80 && win[1] == ':' && (win[2] == '\\' || win[2] == '/') {
        vstd::slice::slice_subrange(win, 2, n)
    } else {
        win
    };
    proof {
        if n >= 3 {
            assert(win@.subrange(2, n as int) =~= win@.skip(2));
        }
    }
    let c = crate::text::components_of(s, true);
    let j = crate::text::join_with(&c, '/');
    let mut r: Vec<char> = vec!['/'];
    assert(r@ =~= seq!['/']);
    crate::text::extend_chars(&mut r, j.as_slice());
    r
}

} // verus!
