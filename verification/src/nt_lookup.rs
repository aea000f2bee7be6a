//! How a Windows program finds a module and an export of it at run time: what
//! the searches give, said of the lists and tables in its memory.
use vstd::prelude::*;

use crate::nt_names;
use crate::process;
use crate::start_stack;

verus! {

proof fn lemma_latin(m: Map<int, u8>, p: int, s: Seq<u8>, acc: Seq<char>, i: int, left: nat)
    requires
        start_stack::string_at(m, p, s),
        forall|j: int| 0 <= j < s.len() ==> #[trigger] s[j] != 0,
        0 <= i <= s.len(),
        left > s.len() - i,
        acc.len() == i,
        forall|j: int| 0 <= j < i ==> #[trigger] acc[j] == s[j] as char,
    ensures
        nt_names::latin_from(m, p + i, acc, left) == Some(
            Seq::new(s.len(), |j: int| s[j] as char),
        ),
    decreases s.len() - i,
{
    if i < s.len() {
        assert(start_stack::byte_at(m, p + i, s[i]));
        lemma_latin(m, p, s, acc.push(m[p + i] as char), i + 1, (left - 1) as nat);
        assert(p + i + 1 == p + (i + 1));
    } else {
        assert(start_stack::byte_at(m, p + s.len(), 0));
        assert(acc =~= Seq::new(s.len(), |j: int| s[j] as char));
    }
}

/// A string of bytes is read up to its NUL, each byte as the character with its
/// number.
pub proof fn law_byte_string_is_read_up_to_its_nul(m: Map<int, u8>, p: u64, s: Seq<u8>)
    requires
        start_stack::string_at(m, p as int, s),
        forall|j: int| 0 <= j < s.len() ==> #[trigger] s[j] != 0,
        s.len() < 4096,
    ensures
        nt_names::latin(m, p) == Some(Seq::new(s.len(), |j: int| s[j] as char)),
{
    lemma_latin(m, p as int, s, Seq::empty(), 0, 4096);
}

proof fn lemma_units(m: Map<int, u8>, buf: int, s: Seq<char>, acc: Seq<char>, i: int)
    requires
        0 <= i <= s.len(),
        acc == s.take(i),
        forall|k: int| 0 <= k < s.len() ==> unit_at(m, buf + 2 * k, #[trigger] s[k]),
    ensures
        nt_names::units_from(m, buf, acc, i, s.len() as int) == Some(s),
    decreases s.len() - i,
{
    if i < s.len() {
        assert(unit_at(m, buf + 2 * i, s[i]));
        assert(buf + i * 2 == buf + 2 * i);
        assert(acc.push(s[i]) =~= s.take(i + 1));
        lemma_units(m, buf, s, acc.push(s[i]), i + 1);
    } else {
        assert(acc =~= s);
    }
}

/// The 16-bit unit at `a` is this ASCII character.
pub open spec fn unit_at(m: Map<int, u8>, a: int, c: char) -> bool {
    process::word16(m, a) matches Some(u) && u < 0x80 && u as char == c
}

/// A `UNICODE_STRING` is read by its length in bytes and the pointer behind it.
pub proof fn law_unicode_string_is_read_by_its_length(
    m: Map<int, u8>,
    us: u64,
    buf: u64,
    s: Seq<char>,
)
    requires
        us != 0,
        s.len() <= 260,
        process::word16(m, us as int) == Some((2 * s.len()) as u16),
        process::word64(m, us + 8) == Some(buf),
        forall|k: int| 0 <= k < s.len() ==> unit_at(m, buf + 2 * k, #[trigger] s[k]),
    ensures
        nt_names::unicode(m, us) == Some(s),
{
    assert(s.take(0) =~= Seq::empty());
    assert(((2 * s.len()) as u16) as int / 2 == s.len());
    lemma_units(m, buf as int, s, Seq::empty(), 0);
}

// --- modules ---

/// The entry at `e` is that of a module with the name `w`: the length and the
/// place of its name stand at 0x58 and 0x60.
pub open spec fn entry_named(m: Map<int, u8>, e: u64, w: Seq<u8>) -> bool {
    &&& process::word16(m, e + 0x58) is Some && process::word64(m, e + 0x60) is Some
    &&& ({
        let len = process::word16(m, e + 0x58)->0;
        let buf = process::word64(m, e + 0x60)->0;
        buf != 0 && len >= 2 && nt_names::wide_is(m, buf, (len / 2) as int, w) == Some(true)
    })
}

/// It has another name.
pub open spec fn entry_not_named(m: Map<int, u8>, e: u64, w: Seq<u8>) -> bool {
    &&& process::word16(m, e + 0x58) is Some && process::word64(m, e + 0x60) is Some
    &&& ({
        let len = process::word16(m, e + 0x58)->0;
        let buf = process::word64(m, e + 0x60)->0;
        buf == 0 || len < 2 || nt_names::wide_is(m, buf, (len / 2) as int, w) == Some(false)
    })
}

/// The entries `es` are linked in this order, each by its first word.
pub open spec fn chained(m: Map<int, u8>, head: u64, es: Seq<u64>) -> bool {
    &&& forall|k: int| 0 <= k < es.len() ==> #[trigger] es[k] != head && es[k] != 0
    &&& forall|k: int, l: int|
        0 <= k && l == k + 1 && l < es.len() ==> process::word64(m, #[trigger] es[k] as int) == Some(
            #[trigger] es[l],
        )
}

proof fn lemma_listed(
    m: Map<int, u8>,
    head: u64,
    es: Seq<u64>,
    w: Seq<u8>,
    i: int,
    k: int,
    left: nat,
)
    requires
        chained(m, head, es),
        0 <= i <= k < es.len(),
        left > k - i,
        forall|j: int| 0 <= j < k ==> entry_not_named(m, #[trigger] es[j], w),
        entry_named(m, es[k], w),
    ensures
        nt_names::listed_at(m, head, es[i], w, left) == process::word64(m, es[k] + 0x30),
    decreases k - i,
{
    assert(es[i] != head && es[i] != 0);
    if i < k {
        assert(entry_not_named(m, es[i], w));
        assert(process::word64(m, es[i] as int) == Some(es[i + 1]));
        lemma_listed(m, head, es, w, i + 1, k, (left - 1) as nat);
    }
}

/// A module is found by its name in the loader's list, which hangs off the
/// process environment block that the thread's block names; its base stands in
/// its entry at 0x30.
pub proof fn law_module_is_found_in_the_loader_list(
    m: Map<int, u8>,
    gs: u64,
    peb: u64,
    ldr: u64,
    es: Seq<u64>,
    want: Seq<char>,
    k: int,
    base: u64,
)
    requires
        gs != 0 && peb != 0 && ldr != 0,
        ldr + 0x10 <= u64::MAX,
        process::word64(m, gs + 0x60) == Some(peb),
        process::word64(m, peb + 0x18) == Some(ldr),
        chained(m, (ldr + 0x10) as u64, es),
        0 <= k < es.len() < 64,
        process::word64(m, ldr + 0x10) == Some(es[0]),
        forall|j: int|
            0 <= j < k ==> entry_not_named(m, #[trigger] es[j], vstd::utf8::encode_utf8(want)),
        entry_named(m, es[k], vstd::utf8::encode_utf8(want)),
        process::word64(m, es[k] + 0x30) == Some(base),
    ensures
        nt_names::module_base(m, gs, want) == Some(base),
{
    lemma_listed(m, (ldr + 0x10) as u64, es, vstd::utf8::encode_utf8(want), 0, k, 64);
}

// --- exports ---

/// The export directory of the module at `base`, found through its headers: the
/// directory's address and size, and the addresses of its three tables.
pub open spec fn has_exports(
    m: Map<int, u8>,
    base: u64,
    rva: u32,
    size: u32,
    funcs: u32,
    names: u32,
    first: u32,
    eat: u64,
    enpt: u64,
    ords: u64,
) -> bool {
    &&& base != 0 && rva != 0
    &&& base + rva <= u64::MAX
    &&& process::word32(m, base + 60) matches Some(o) && base + o <= u64::MAX && ({
        let p = base + o;
        &&& process::word32(m, p) == Some(0x4550u32)
        &&& process::word16(m, p + 24) == Some(0x20Bu16)
        &&& process::word32(m, p + 132) matches Some(dirs) && dirs >= 1
        &&& process::word32(m, p + 136) == Some(rva)
        &&& process::word32(m, p + 140) == Some(size)
    })
    &&& process::word32(m, base + rva + 16) == Some(first)
    &&& process::word32(m, base + rva + 20) == Some(funcs)
    &&& process::word32(m, base + rva + 24) == Some(names)
    &&& process::word32(m, base + rva + 28) matches Some(x) && eat == base + x
    &&& process::word32(m, base + rva + 32) matches Some(x) && enpt == base + x
    &&& process::word32(m, base + rva + 36) matches Some(x) && ords == base + x
}

/// Row `j` of the name table at `enpt` spells `s`.
pub open spec fn row_spells(m: Map<int, u8>, base: u64, enpt: u64, j: int, s: Seq<char>) -> bool {
    process::word32(m, enpt + 4 * j) matches Some(r) && base + r <= u64::MAX && nt_names::latin(
        m,
        (base + r) as u64,
    ) == Some(s)
}

proof fn lemma_dir(
    m: Map<int, u8>,
    base: u64,
    rva: u32,
    size: u32,
    funcs: u32,
    names: u32,
    first: u32,
    eat: u64,
    enpt: u64,
    ords: u64,
)
    requires
        has_exports(m, base, rva, size, funcs, names, first, eat, enpt, ords),
    ensures
        nt_names::export_dir(m, base) == Some(
            Some(
                nt_names::ExportDir {
                    base,
                    eat,
                    enpt,
                    ords,
                    n_names: names,
                    n_funcs: funcs,
                    ord_base: first,
                    dir_rva: rva,
                    dir_size: size,
                },
            ),
        ),
{
    assert(base + 0x3C == base + 60);
}

proof fn lemma_name(
    m: Map<int, u8>,
    gs: u64,
    d: nt_names::ExportDir,
    texts: Seq<Seq<char>>,
    i: int,
    k: int,
    depth: int,
)
    requires
        0 <= i <= k < d.n_names,
        texts.len() == d.n_names,
        forall|j: int|
            0 <= j <= k ==> row_spells(m, d.base, d.enpt, j, #[trigger] texts[j]),
        forall|j: int| 0 <= j < k ==> #[trigger] texts[j] != texts[k],
        process::word16(m, d.ords + 2 * k) is Some,
    ensures
        nt_names::name_from(m, gs, d, texts[k], i, depth) == nt_names::slot_addr(
            m,
            gs,
            d,
            process::word16(m, d.ords + 2 * k)->0 as int,
            depth,
        ),
    decreases k - i,
{
    assert(row_spells(m, d.base, d.enpt, i, texts[i]));
    assert(d.enpt + i * 4 == d.enpt + 4 * i);
    if i < k {
        assert(texts[i] != texts[k]);
        lemma_name(m, gs, d, texts, i + 1, k, depth);
    } else {
        assert(d.ords + i * 2 == d.ords + 2 * k);
    }
}

/// An export is found by its name, through the slot that the ordinal table
/// gives it, and by its ordinal, which counts from the directory's base: its
/// address is the module's base plus what stands in the slot.
pub proof fn law_export_is_found_by_name_and_by_ordinal(
    m: Map<int, u8>,
    gs: u64,
    base: u64,
    rva: u32,
    size: u32,
    funcs: u32,
    first: u32,
    eat: u64,
    enpt: u64,
    ords: u64,
    texts: Seq<Seq<char>>,
    k: int,
    slot: u16,
    f: u32,
    depth: int,
)
    requires
        has_exports(m, base, rva, size, funcs, texts.len() as u32, first, eat, enpt, ords),
        texts.len() <= u32::MAX,
        0 <= k < texts.len(),
        0 <= depth,
        forall|j: int| 0 <= j <= k ==> row_spells(m, base, enpt, j, #[trigger] texts[j]),
        forall|j: int| 0 <= j < k ==> #[trigger] texts[j] != texts[k],
        process::word16(m, ords + 2 * k) == Some(slot),
        slot < funcs,
        process::word32(m, eat + 4 * slot) == Some(f),
        f != 0,
        f < rva || f >= rva + size,
        base + f <= i64::MAX,
    ensures
        nt_names::name_addr(m, gs, base, texts[k], depth) == Some((base + f) as i64),
        first + slot <= u16::MAX ==> nt_names::ordinal_addr(
            m,
            gs,
            base,
            (first + slot) as u16,
            depth,
        ) == Some((base + f) as i64),
{
    lemma_dir(m, base, rva, size, funcs, texts.len() as u32, first, eat, enpt, ords);
    let d = nt_names::ExportDir {
        base,
        eat,
        enpt,
        ords,
        n_names: texts.len() as u32,
        n_funcs: funcs,
        ord_base: first,
        dir_rva: rva,
        dir_size: size,
    };
    lemma_name(m, gs, d, texts, 0, k, depth);
    assert(eat + slot * 4 == eat + 4 * slot);
}

} // verus!
