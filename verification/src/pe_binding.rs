//! Exports, imports, segments and thread-local storage of PE modules: what each
//! step of loading one leaves behind, said of the image's own bytes.
use vstd::prelude::*;

use crate::bytes;
use crate::elf_layout;
use crate::pe;
use crate::pe::{Seg, TlsInfo};
use crate::pe_loader;
use crate::pe_loader::{Exp, Ld, Tls};
use crate::process;
use crate::process::Space;
use crate::text;

verus! {

// --- exports ---

/// The relative address in slot `i` of the export directory at `rva`.
pub open spec fn export_rva(img: Seq<u8>, rva: int, i: int) -> int {
    bytes::le32(img, bytes::le32(img, rva + 28) + 4 * i) as int
}

/// What slot `i` exports: nothing, a forwarder (text inside the directory
/// itself), or an address.
pub open spec fn slot_holds(img: Seq<u8>, base: u64, rva: int, size: int, i: int, x: Exp) -> bool {
    let f = export_rva(img, rva, i);
    if f == 0 {
        x == Exp::Empty
    } else if rva <= f < rva + size {
        x is Forward && pe::cstr(img, f) == Ok::<Seq<char>, &'static str>(x->Forward_0)
    } else {
        x == Exp::Addr((base + f) as u64)
    }
}

proof fn lemma_slots(
    img: Seq<u8>,
    base: u64,
    eat: int,
    rva: int,
    size: int,
    acc: Seq<Exp>,
    i: int,
    n: int,
)
    requires
        0 <= i <= n,
        acc.len() == i,
        eat == bytes::le32(img, rva + 28),
        forall|k: int| 0 <= k < i ==> slot_holds(img, base, rva, size, k, #[trigger] acc[k]),
        pe_loader::slots(img, base, eat, rva, size, acc, i, n) is Ok,
    ensures
        ({
            let r = pe_loader::slots(img, base, eat, rva, size, acc, i, n)->Ok_0;
            &&& r.len() == n
            &&& forall|k: int| 0 <= k < n ==> slot_holds(img, base, rva, size, k, #[trigger] r[k])
        }),
    decreases n - i,
{
    if i < n {
        let x = pe_loader::slot_at(img, base, eat, i, rva, size)->Ok_0;
        assert(eat + i * 4 == eat + 4 * i);
        assert(slot_holds(img, base, rva, size, i, x));
        lemma_slots(img, base, eat, rva, size, acc.push(x), i + 1, n);
    }
}

/// Row `j` of the name table, where its slot is in the table.
pub open spec fn name_holds(img: Seq<u8>, rva: int, j: int, row: (Seq<char>, usize)) -> bool {
    &&& pe::cstr(img, bytes::le32(img, bytes::le32(img, rva + 32) + 4 * j) as int) == Ok::<
        Seq<char>,
        &'static str,
    >(row.0)
    &&& row.1 == bytes::le16(img, bytes::le32(img, rva + 36) + 2 * j)
}

proof fn lemma_names(
    img: Seq<u8>,
    rva: int,
    funcs: int,
    acc: Seq<(Seq<char>, usize)>,
    i: int,
    n: int,
)
    requires
        0 <= i <= n,
        acc.len() == i,
        forall|j: int|
            0 <= j < n ==> #[trigger] bytes::le16(img, bytes::le32(img, rva + 36) + 2 * j) < funcs,
        forall|k: int| 0 <= k < i ==> name_holds(img, rva, k, #[trigger] acc[k]),
        pe_loader::named(
            img,
            bytes::le32(img, rva + 32) as int,
            bytes::le32(img, rva + 36) as int,
            funcs,
            acc,
            i,
            n,
        ) is Ok,
    ensures
        ({
            let r = pe_loader::named(
                img,
                bytes::le32(img, rva + 32) as int,
                bytes::le32(img, rva + 36) as int,
                funcs,
                acc,
                i,
                n,
            )->Ok_0;
            &&& r.len() == n
            &&& forall|k: int| 0 <= k < n ==> name_holds(img, rva, k, #[trigger] r[k])
        }),
    decreases n - i,
{
    let names = bytes::le32(img, rva + 32) as int;
    let ords = bytes::le32(img, rva + 36) as int;
    if i < n {
        assert(names + i * 4 == names + 4 * i && ords + i * 2 == ords + 2 * i);
        let t = pe::cstr(img, pe::rd32(img, names + i * 4)->Ok_0 as int)->Ok_0;
        let idx = pe::rd16(img, ords + i * 2)->Ok_0;
        assert(bytes::le16(img, ords + 2 * i) < funcs);
        assert(name_holds(img, rva, i, (t, idx as usize)));
        lemma_names(img, rva, funcs, acc.push((t, idx as usize)), i + 1, n);
    }
}

/// An export directory gives one entry for each slot, the ordinal of the first,
/// and one row for each name, with the slot that the ordinal table gives it.
pub proof fn law_export_table_is_the_directory(img: Seq<u8>, base: u64, rva: u32, size: u32)
    requires
        rva != 0,
        pe_loader::export_table(img, base, rva, size) is Ok,
    ensures
        ({
            let (eat, first, names) = pe_loader::export_table(img, base, rva, size)->Ok_0;
            let slots = bytes::le32(img, rva + 20);
            &&& first == bytes::le32(img, rva + 16)
            &&& eat.len() == slots
            &&& forall|k: int|
                0 <= k < slots ==> slot_holds(
                    img,
                    base,
                    rva as int,
                    size as int,
                    k,
                    #[trigger] eat[k],
                )
            &&& (forall|j: int|
                0 <= j < bytes::le32(img, rva + 24) ==> #[trigger] bytes::le16(
                    img,
                    bytes::le32(img, rva + 36) + 2 * j,
                ) < slots) ==> names.len() == bytes::le32(img, rva + 24) && forall|j: int|
                0 <= j < names.len() ==> name_holds(img, rva as int, j, #[trigger] names[j])
        }),
{
    let slots = bytes::le32(img, rva + 20) as int;
    lemma_slots(
        img,
        base,
        bytes::le32(img, rva + 28) as int,
        rva as int,
        size as int,
        Seq::empty(),
        0,
        slots,
    );
    if forall|j: int|
        0 <= j < bytes::le32(img, rva + 24) ==> #[trigger] bytes::le16(
            img,
            bytes::le32(img, rva + 36) + 2 * j,
        ) < slots {
        lemma_names(
            img,
            rva as int,
            slots,
            Seq::empty(),
            0,
            bytes::le32(img, rva + 24) as int,
        );
    }
}

proof fn lemma_slot_named(names: Seq<(Seq<char>, usize)>, j: int, n: int)
    requires
        0 <= j < n <= names.len(),
        forall|k: int| 0 <= k < names.len() && k != j ==> (#[trigger] names[k]).0 != names[j].0,
    ensures
        pe_loader::slot_named(names, names[j].0, n) == Some(names[j].1),
    decreases n,
{
    if n - 1 != j {
        assert(names[n - 1].0 != names[j].0);
        lemma_slot_named(names, j, n - 1);
    }
}

/// A name leads to the address in its slot, and so does the slot's ordinal,
/// which counts from the directory's base; no module is loaded for it.
pub proof fn law_name_and_ordinal_lead_to_the_slot(
    disk: Seq<u8>,
    st: Ld,
    d: int,
    mi: int,
    j: int,
    a: u64,
    f: int,
)
    requires
        0 <= mi < st.mods.len(),
        0 <= f <= 8,
        0 <= j < st.mods[mi].names.len(),
        forall|k: int|
            0 <= k < st.mods[mi].names.len() && k != j ==> (#[trigger] st.mods[mi].names[k]).0
                != st.mods[mi].names[j].0,
        st.mods[mi].names[j].1 < st.mods[mi].eat.len(),
        st.mods[mi].eat[st.mods[mi].names[j].1 as int] == Exp::Addr(a),
    ensures
        pe_loader::name_resolved(disk, st, d, mi, st.mods[mi].names[j].0, f) == Ok::<
            (Ld, u64),
            &'static str,
        >((st, a)),
        pe_loader::ordinal_resolved(
            disk,
            st,
            d,
            mi,
            st.mods[mi].ord_base + st.mods[mi].names[j].1,
            f,
        ) == Ok::<(Ld, u64), &'static str>((st, a)),
{
    lemma_slot_named(st.mods[mi].names, j, st.mods[mi].names.len() as int);
}

/// A forwarder `MODULE.NAME` leads to what that name is in that module.
pub proof fn law_forwarder_leads_to_the_other_module(
    disk: Seq<u8>,
    st: Ld,
    d: int,
    mi: int,
    i: int,
    dll: Seq<char>,
    name: Seq<char>,
    to: int,
    f: int,
)
    requires
        0 <= mi < st.mods.len(),
        0 <= i < st.mods[mi].eat.len(),
        0 <= f <= 8,
        st.mods[mi].eat[i] == Exp::Forward(dll.push('.') + name),
        !name.contains('.'),
        name.len() > 0 && name[0] != '#',
        pe_loader::module_resolved(disk, st, d, dll) == Ok::<(Ld, int), &'static str>((st, to)),
    ensures
        pe_loader::slot_resolved(disk, st, d, mi, i, f) == pe_loader::name_resolved(
            disk,
            st,
            d,
            to,
            name,
            f + 1,
        ),
{
    let s = dll.push('.') + name;
    lemma_last_dot(dll, name, s.len() as int);
    assert(s.take(dll.len() as int) =~= dll);
    assert(s.skip(dll.len() as int + 1) =~= name);
}

proof fn lemma_last_dot(dll: Seq<char>, name: Seq<char>, n: int)
    requires
        !name.contains('.'),
        dll.len() < n <= dll.len() + 1 + name.len(),
    ensures
        text::last_at(dll.push('.') + name, '.', n) == Some(dll.len() as int),
    decreases n,
{
    let s = dll.push('.') + name;
    if n - 1 > dll.len() {
        assert(s[n - 1] == name[n - 1 - dll.len() - 1]);
        assert(name.contains(name[n - 1 - dll.len() - 1]));
        lemma_last_dot(dll, name, n - 1);
    } else {
        assert(s[n - 1] == '.');
    }
}

// --- imports ---

/// The import at thunk `t` stands for the address `a`: by its ordinal where the
/// top bit is set, and else by the name behind a two-byte hint.
pub open spec fn import_is(
    disk: Seq<u8>,
    st: Ld,
    d: int,
    img: Seq<u8>,
    mi: int,
    t: u64,
    a: u64,
) -> bool {
    if t >= 0x8000_0000_0000_0000 {
        pe_loader::ordinal_resolved(disk, st, d, mi, (t % 0x1_0000) as int, 0) == Ok::<
            (Ld, u64),
            &'static str,
        >((st, a))
    } else {
        pe::cstr(img, t % 0x8000_0000 + 2) matches Ok(name) && pe_loader::name_resolved(
            disk,
            st,
            d,
            mi,
            name,
            0,
        ) == Ok::<(Ld, u64), &'static str>((st, a))
    }
}

/// The name that thunk `t` points at lies away from `[lo, hi)`.
pub open spec fn name_clear_of(t: u64, lo: int, hi: int) -> bool {
    t >= 0x8000_0000_0000_0000 || t % 0x8000_0000 + 2 + 256 <= lo || hi <= t % 0x8000_0000 + 2
}

/// The thunks at `names`, as many as there are addresses in `to` and a null
/// behind, stand for those addresses; they and the names that they point at lie
/// away from the table at `iat`.
pub open spec fn imports_are(
    disk: Seq<u8>,
    st: Ld,
    d: int,
    img: Seq<u8>,
    mi: int,
    names: int,
    iat: int,
    to: Seq<u64>,
) -> bool {
    let n = to.len() as int;
    &&& 0 <= names && 0 <= iat
    &&& names + 8 * n + 8 <= img.len() && iat + 8 * n + 8 <= img.len()
    &&& names + 8 * n + 8 <= iat || iat + 8 * n <= names
    &&& bytes::le64(img, names + 8 * n) == 0
    &&& forall|i: int|
        0 <= i < n ==> {
            let t = bytes::le64(img, names + 8 * i);
            t != 0 && import_is(disk, st, d, img, mi, t, #[trigger] to[i]) && name_clear_of(
                t,
                iat,
                iat + 8 * n,
            )
        }
}

proof fn lemma_nul(a: Seq<u8>, b: Seq<u8>, at: int, end: int)
    requires
        forall|x: int| at <= x < end ==> a[x] == b[x],
    ensures
        pe::nul_at(a, at, end) == pe::nul_at(b, at, end),
        at <= end ==> at <= pe::nul_at(a, at, end) <= end,
    decreases end - at,
{
    if at < end && a[at] != 0 {
        lemma_nul(a, b, at + 1, end);
    }
}

/// Text is the same in two images that agree where it may lie.
proof fn lemma_text_stays(a: Seq<u8>, b: Seq<u8>, off: int)
    requires
        0 <= off,
        a.len() == b.len(),
        forall|x: int| off <= x < off + 256 && x < a.len() ==> a[x] == b[x],
    ensures
        pe::cstr(a, off) == pe::cstr(b, off),
{
    let end = if off + 256 < a.len() {
        off + 256
    } else {
        a.len() as int
    };
    if off <= a.len() {
        lemma_nul(a, b, off, end);
        let n = pe::nul_at(a, off, end);
        assert(a.subrange(off, n) =~= b.subrange(off, n));
    }
}

proof fn lemma_word_stays(a: Seq<u8>, b: Seq<u8>, t: int)
    requires
        forall|x: int| t <= x < t + 8 ==> a[x] == b[x],
    ensures
        bytes::le64(a, t) == bytes::le64(b, t),
{
    assert(a[t + 0] == b[t + 0] && a[t + 1] == b[t + 1] && a[t + 2] == b[t + 2] && a[t + 3] == b[t
        + 3]);
    assert(a[t + 4] == b[t + 4] && a[t + 5] == b[t + 5] && a[t + 6] == b[t + 6] && a[t + 7] == b[t
        + 7]);
}

/// `b` is `img` with the first `i` words of the table at `iat` set from `to`.
spec fn bound_so_far(img: Seq<u8>, b: Seq<u8>, iat: int, to: Seq<u64>, i: int) -> bool {
    &&& b.len() == img.len()
    &&& forall|x: int|
        0 <= x < img.len() && !(iat <= x < iat + 8 * i) ==> #[trigger] b[x] == img[x]
    &&& forall|k: int| 0 <= k < i ==> bytes::le64(b, iat + 8 * k) == #[trigger] to[k]
}

proof fn lemma_thunks(
    disk: Seq<u8>,
    st: Ld,
    d: int,
    img: Seq<u8>,
    cur: Seq<u8>,
    soi: int,
    mi: int,
    names: int,
    iat: int,
    to: Seq<u64>,
    i: int,
)
    requires
        imports_are(disk, st, d, img, mi, names, iat, to),
        soi == img.len(),
        0 <= i <= to.len(),
        bound_so_far(img, cur, iat, to, i),
    ensures
        pe_loader::thunks_bound(disk, st, d, cur, soi, mi, names, iat, i) matches Ok((st2, b))
            && st2 == st && bound_so_far(img, b, iat, to, to.len() as int),
    decreases to.len() - i,
{
    let n = to.len() as int;
    let t = names + i * 8;
    let p = iat + i * 8;
    assert forall|x: int| t <= x < t + 8 implies cur[x] == img[x] by {}
    lemma_word_stays(cur, img, t);
    assert(t == names + 8 * i && p == iat + 8 * i);
    if i < n {
        let a = to[i];
        let thunk = bytes::le64(img, names + 8 * i);
        assert(import_is(disk, st, d, img, mi, thunk, to[i]));
        if thunk < 0x8000_0000_0000_0000 {
            let off = thunk % 0x8000_0000 + 2;
            assert forall|x: int| off <= x < off + 256 && x < img.len() implies cur[x]
                == img[x] by {}
            lemma_text_stays(cur, img, off);
        }
        let next = bytes::splice(cur, p, bytes::bytes64(a));
        assert(bound_so_far(img, next, iat, to, i + 1)) by {
            bytes::lemma_store64(cur, p, a);
            assert forall|k: int| 0 <= k < i + 1 implies bytes::le64(next, iat + 8 * k)
                == #[trigger] to[k] by {
                if k < i {
                    assert(bytes::le64(cur, iat + 8 * k) == to[k]);
                }
            }
        }
        lemma_thunks(disk, st, d, img, next, soi, mi, names, iat, to, i + 1);
    }
}

/// Every slot of an import address table ends up with the address that its
/// thunk stands for, and no other byte of the image changes.
pub proof fn law_import_slots_hold_their_addresses(
    disk: Seq<u8>,
    st: Ld,
    d: int,
    img: Seq<u8>,
    mi: int,
    names: int,
    iat: int,
    to: Seq<u64>,
)
    requires
        imports_are(disk, st, d, img, mi, names, iat, to),
    ensures
        pe_loader::thunks_bound(
            disk,
            st,
            d,
            img,
            img.len() as int,
            mi,
            names,
            iat,
            0,
        ) matches Ok((st2, b)) && st2 == st && b.len() == img.len() && (forall|k: int|
            0 <= k < to.len() ==> bytes::le64(b, iat + 8 * k) == #[trigger] to[k]) && forall|
            x: int,
        |
            0 <= x < img.len() && !(iat <= x < iat + 8 * to.len()) ==> #[trigger] b[x] == img[x],
{
    lemma_thunks(disk, st, d, img, img, img.len() as int, mi, names, iat, to, 0);
}

/// The descriptors are obeyed one after the other, twenty bytes each: one binds
/// its own table against the module that it names, by its lookup table or,
/// without one, by the table itself, and the rest follow; the one without a
/// name and a table ends them.
pub proof fn law_import_descriptors_are_obeyed_in_order(
    disk: Seq<u8>,
    st: Ld,
    d: int,
    img: Seq<u8>,
    at: int,
)
    requires
        0 <= at,
        at + 20 <= img.len(),
    ensures
        ({
            let soi = img.len() as int;
            let lookup = bytes::le32(img, at);
            let name = bytes::le32(img, at + 12);
            let table = bytes::le32(img, at + 16);
            let r = pe_loader::imports_bound(disk, st, d, img, soi, at);
            &&& name == 0 && table == 0 ==> r == Ok::<(Ld, Seq<u8>), &'static str>((st, img))
            &&& (name != 0 || table != 0) ==> (pe::cstr(img, name as int) matches Ok(dll) ==> (
            pe_loader::module_resolved(disk, st, d, dll) matches Ok((st2, mi)) ==> (
            pe_loader::thunks_bound(
                disk,
                st2,
                d,
                img,
                soi,
                mi,
                if lookup != 0 {
                    lookup as int
                } else {
                    table as int
                },
                table as int,
                0,
            ) matches Ok((st3, img3)) ==> r == pe_loader::imports_bound(
                disk,
                st3,
                d,
                img3,
                soi,
                at + 20,
            ))))
        }),
{
}

// --- segments ---

/// The address `a` lies in a page that a piece of `size` bytes at `at` maps; an
/// empty piece has one page.
pub open spec fn piece_maps(at: int, size: int, a: int) -> bool {
    at / 4096 * 4096 <= a < (at + (if size < 1 {
        1
    } else {
        size
    }) + 4095) / 4096 * 4096
}

/// What a space is like once a piece of an image was mapped in `s`.
spec fn piece_in(
    s: Space,
    t: Space,
    img: Seq<u8>,
    at: int,
    off: int,
    size: int,
    executable: bool,
) -> bool {
    &&& forall|a: int|
        piece_maps(at, size, a) ==> #[trigger] t.mem.contains_key(a) && t.mem[a] == (if at <= a < at
            + size {
            img[off + (a - at)]
        } else {
            0
        })
    &&& forall|a: int|
        !piece_maps(at, size, a) ==> (#[trigger] t.mem.contains_key(a) == s.mem.contains_key(a)) && (
        s.mem.contains_key(a) ==> t.mem[a] == s.mem[a])
    &&& forall|a: int|
        piece_maps(at, size, a) && a % 4096 == 0 ==> #[trigger] t.pages.contains_key(a)
            && t.pages[a].executable == executable
    &&& forall|a: int|
        !piece_maps(at, size, a) ==> (#[trigger] t.pages.contains_key(a) == s.pages.contains_key(a))
            && (s.pages.contains_key(a) ==> t.pages[a] == s.pages[a])
}

proof fn lemma_piece_run(at: int, size: int, a: int)
    requires
        0 <= at,
        0 <= size,
    ensures
        piece_maps(at, size, a) == ({
            let span = if size < 1 {
                1
            } else {
                size
            };
            let low = at - at % 4096;
            low <= a < low + process::run_count(at, span) * 4096
        }),
{
}

#[verifier::spinoff_prover]
proof fn lemma_piece(
    s: Space,
    free: Seq<u64>,
    img: Seq<u8>,
    at: int,
    off: int,
    size: int,
    executable: bool,
)
    requires
        0 <= at,
        0 <= size,
        pe_loader::seg_mapped(s, free, img, at, off, size, executable) is Ok,
    ensures
        piece_in(
            s,
            (pe_loader::seg_mapped(s, free, img, at, off, size, executable)->Ok_0).0,
            img,
            at,
            off,
            size,
            executable,
        ),
{
    let span = if size < 1 {
        1
    } else {
        size
    };
    let n = process::run_count(at, span);
    let low = at - at % 4096;
    let t = process::with_run(s, free, img, off, at, size, executable, n);
    assert((pe_loader::seg_mapped(s, free, img, at, off, size, executable)->Ok_0).0 == t) by {
        reveal(pe_loader::seg_mapped);
    }
    elf_layout::lemma_run(s, free, img, off, at, size, executable, n);
    assert forall|a: int| #[trigger] piece_maps(at, size, a) == (low <= a < low + n * 4096) by {
        lemma_piece_run(at, size, a);
    }
    assert forall|a: int| piece_maps(at, size, a) implies #[trigger] t.mem.contains_key(a)
        && t.mem[a] == (if at <= a < at + size {
        img[off + (a - at)]
    } else {
        0
    }) by {
        assert(low <= a < low + n * 4096);
        assert(t.mem.contains_key(a));
    }
    assert forall|a: int| !piece_maps(at, size, a) implies (#[trigger] t.mem.contains_key(a)
        == s.mem.contains_key(a)) && (s.mem.contains_key(a) ==> t.mem[a] == s.mem[a]) by {
        assert(!(low <= a < low + n * 4096));
        assert(t.mem.contains_key(a) == s.mem.contains_key(a));
    }
    assert forall|a: int|
        piece_maps(at, size, a) && a % 4096 == 0 implies #[trigger] t.pages.contains_key(a)
        && t.pages[a].executable == executable by {
        assert(low <= a < low + n * 4096);
        assert(t.pages.contains_key(a));
    }
    assert forall|a: int| !piece_maps(at, size, a) implies (#[trigger] t.pages.contains_key(a)
        == s.pages.contains_key(a)) && (s.pages.contains_key(a) ==> t.pages[a] == s.pages[a]) by {
        assert(!(low <= a < low + n * 4096));
        assert(t.pages.contains_key(a) == s.pages.contains_key(a));
    }
    assert(piece_in(s, t, img, at, off, size, executable));
}

/// The pages of segment `k` of an image at `base` hold the address `a`.
pub open spec fn segment_maps(base: u64, segs: Seq<Seg>, k: int, a: int) -> bool {
    piece_maps(base + segs[k].rva, segs[k].mem_size as int, a)
}

proof fn lemma_segments(
    s: Space,
    free: Seq<u64>,
    img: Seq<u8>,
    base: u64,
    segs: Seq<Seg>,
    from: int,
    k: int,
    a: int,
)
    requires
        0 <= from <= segs.len(),
        pe_loader::segs_mapped(s, free, img, base, segs, from) is Ok,
        k < segs.len(),
        from <= k ==> segment_maps(base, segs, k, a),
        forall|j: int| from <= j < segs.len() && k < j ==> !#[trigger] segment_maps(base, segs, j, a),
    ensures
        ({
            let t = (pe_loader::segs_mapped(s, free, img, base, segs, from)->Ok_0).0;
            let page = a / 4096 * 4096;
            if from <= k {
                let at = base + segs[k].rva;
                &&& t.mem.contains_key(a)
                &&& at <= a < at + segs[k].mem_size ==> t.mem[a] == img[a - base]
                &&& t.pages.contains_key(page)
                &&& t.pages[page].executable == segs[k].executable
            } else {
                &&& t.mem.contains_key(a) == s.mem.contains_key(a)
                &&& s.mem.contains_key(a) ==> t.mem[a] == s.mem[a]
                &&& t.pages.contains_key(page) == s.pages.contains_key(page)
                &&& s.pages.contains_key(page) ==> t.pages[page] == s.pages[page]
            }
        }),
    decreases segs.len() - from,
{
    if from < segs.len() {
        let at = base + segs[from].rva;
        let size = segs[from].mem_size as int;
        let x = segs[from].executable;
        let off = segs[from].rva as int;
        let page = a / 4096 * 4096;
        lemma_piece(s, free, img, at, off, size, x);
        let (t, f) = pe_loader::seg_mapped(s, free, img, at, off, size, x)->Ok_0;
        assert(segment_maps(base, segs, from, a) == piece_maps(at, size, a));
        assert(piece_maps(at, size, a) == piece_maps(at, size, page));
        assert(t.mem.contains_key(a) == t.mem.contains_key(a));
        assert(t.pages.contains_key(page) == t.pages.contains_key(page));
        if from == k {
            lemma_segments(t, f, img, base, segs, from + 1, from, a);
        } else {
            lemma_segments(t, f, img, base, segs, from + 1, k, a);
        }
    }
}

/// A mapped image lies in memory as it was staged: at `base + x` of a segment
/// there is byte `x` of the image, and the page may run exactly where the
/// section says so, wherever no later section maps the same page.
pub proof fn law_mapped_image_is_the_staged_one(
    s: Space,
    free: Seq<u64>,
    img: Seq<u8>,
    base: u64,
    headers: u64,
    segs: Seq<Seg>,
    k: int,
    x: int,
)
    requires
        pe_loader::image_mapped(s, free, img, base, headers, segs) is Ok,
        0 <= k < segs.len(),
        segs[k].rva <= x < segs[k].rva + segs[k].mem_size,
        forall|j: int| k < j < segs.len() ==> !#[trigger] segment_maps(base, segs, j, base + x),
    ensures
        ({
            let t = (pe_loader::image_mapped(s, free, img, base, headers, segs)->Ok_0).0;
            let a = base + x;
            &&& t.mem.contains_key(a) && t.mem[a] == img[x]
            &&& t.pages.contains_key(a / 4096 * 4096)
            &&& t.pages[a / 4096 * 4096].executable == segs[k].executable
        }),
{
    let (t, f) = pe_loader::seg_mapped(s, free, img, base as int, 0, headers as int, false)->Ok_0;
    lemma_segments(t, f, img, base, segs, 0, k, base + x);
}

/// The headers lie at the base, where no section maps the same page.
pub proof fn law_mapped_headers_lie_at_the_base(
    s: Space,
    free: Seq<u64>,
    img: Seq<u8>,
    base: u64,
    headers: u64,
    segs: Seq<Seg>,
    x: int,
)
    requires
        pe_loader::image_mapped(s, free, img, base, headers, segs) is Ok,
        0 <= x < headers,
        segs.len() > 0,
        forall|j: int| 0 <= j < segs.len() ==> !#[trigger] segment_maps(base, segs, j, base + x),
    ensures
        ({
            let t = (pe_loader::image_mapped(s, free, img, base, headers, segs)->Ok_0).0;
            let a = base + x;
            t.mem.contains_key(a) && t.mem[a] == img[x] && !t.pages[a / 4096 * 4096].executable
        }),
{
    let (t, f) = pe_loader::seg_mapped(s, free, img, base as int, 0, headers as int, false)->Ok_0;
    lemma_piece(s, free, img, base as int, 0, headers as int, false);
    let a = base + x;
    let page = a / 4096 * 4096;
    assert(piece_maps(base as int, headers as int, a));
    assert(piece_maps(base as int, headers as int, page));
    assert(t.mem.contains_key(a) && t.pages.contains_key(page));
    lemma_segments(t, f, img, base, segs, 0, -1, a);
}

// --- thread-local storage ---

/// A module's block of the thread-local page holds its template and is followed
/// by its zeros; the pointer array leads to it; the blocks and pointers of the
/// modules before it stay; and the next block begins behind it, on a multiple
/// of sixteen.
pub proof fn law_thread_local_block_holds_the_template(
    t: Tls,
    base: u64,
    img: Seq<u8>,
    m: TlsInfo,
)
    requires
        t.page.len() == 4096,
        0 <= t.n_mods,
        0x100 <= t.blk_next,
        pe_loader::tls_block(t, base, img, m) is Ok,
    ensures
        ({
            let u = pe_loader::tls_block(t, base, img, m)->Ok_0;
            let len = m.raw_end_va - m.raw_start_va;
            &&& u.page.len() == 4096
            &&& bytes::le64(u.page, 8 * t.n_mods) == 0x7FF0_0000_8000 + t.blk_next
            &&& forall|i: int|
                0 <= i < len ==> #[trigger] u.page[t.blk_next + i] == img[m.raw_start_va - base + i]
            &&& forall|x: int|
                0 <= x < 4096 && !(t.blk_next <= x < t.blk_next + len) && !(8 * t.n_mods <= x < 8
                    * t.n_mods + 8) ==> #[trigger] u.page[x] == t.page[x]
            &&& u.n_mods == t.n_mods + 1
            &&& u.blk_next % 16 == 0
            &&& t.blk_next + len + m.zero_fill <= u.blk_next < t.blk_next + len + m.zero_fill + 16
        }),
{
    let raw = m.raw_start_va - base;
    let len = m.raw_end_va - m.raw_start_va;
    let page = bytes::splice(t.page, t.blk_next, img.subrange(raw, raw + len));
    assert(t.n_mods * 8 == 8 * t.n_mods);
    bytes::lemma_store64(
        page,
        8 * t.n_mods,
        (crate::pe_pages::PE_TLS_ADDR + t.blk_next) as u64,
    );
}

/// `cbs` with the module's callbacks behind it: those of the null-terminated
/// array at `off` of its image, in order.
proof fn lemma_callbacks(
    cbs: Seq<(u64, u64)>,
    img: Seq<u8>,
    base: u64,
    off: int,
    n: int,
    left: nat,
)
    requires
        0 <= n < left,
        off + 8 * n + 8 <= img.len(),
        forall|i: int| 0 <= i < n ==> bytes::le64(img, #[trigger] (off + 8 * i)) != 0,
        bytes::le64(img, off + 8 * n) == 0,
    ensures
        ({
            let r = pe_loader::with_callbacks(cbs, img, base, off, left);
            &&& r.len() == cbs.len() + n
            &&& forall|i: int| 0 <= i < cbs.len() ==> #[trigger] r[i] == cbs[i]
            &&& forall|i: int|
                cbs.len() <= i < r.len() ==> #[trigger] r[i] == (
                base,
                bytes::le64(img, off + 8 * (i - cbs.len())),
            )
        }),
    decreases left,
{
    if n > 0 {
        let c = cbs.push((base, bytes::le64(img, off)));
        assert(bytes::le64(img, off + 8 * 0) != 0);
        assert forall|i: int| 0 <= i < n - 1 implies bytes::le64(
            img,
            #[trigger] (off + 8 + 8 * i),
        ) != 0 by {
            assert(off + 8 + 8 * i == off + 8 * (i + 1));
        }
        lemma_callbacks(c, img, base, off + 8, n - 1, (left - 1) as nat);
        let r = pe_loader::with_callbacks(cbs, img, base, off, left);
        assert forall|i: int| cbs.len() <= i < r.len() implies #[trigger] r[i] == (
            base,
            bytes::le64(img, off + 8 * (i - cbs.len())),
        ) by {
            if i > cbs.len() {
                assert(off + 8 + 8 * (i - c.len()) == off + 8 * (i - cbs.len()));
            } else {
                assert(r[i] == c[i]);
            }
        }
    }
}

/// A module finds its index where its directory points, and its callbacks run
/// behind those of the modules before it, in the order of its array.
pub proof fn law_module_finds_its_index_and_callbacks(
    img: Seq<u8>,
    base: u64,
    m: TlsInfo,
    idx: int,
    cbs: Seq<(u64, u64)>,
    n: int,
)
    requires
        0 <= idx < 24,
        base <= m.index_ptr_va,
        m.index_ptr_va - base + 4 <= img.len(),
        base <= m.callbacks_va,
        0 < m.callbacks_va,
        0 <= n < 64,
        m.callbacks_va - base + 8 * n + 8 <= img.len(),
        m.index_ptr_va - base + 4 <= m.callbacks_va - base || m.callbacks_va - base + 8 * n + 8
            <= m.index_ptr_va - base,
        forall|i: int|
            0 <= i < n ==> bytes::le64(img, #[trigger] (m.callbacks_va - base + 8 * i)) != 0,
        bytes::le64(img, m.callbacks_va - base + 8 * n) == 0,
    ensures
        pe_loader::tls_patched(img, base, m, idx, cbs) matches Ok((b, all)) && ({
            let off = m.callbacks_va - base;
            &&& b.len() == img.len()
            &&& bytes::le32(b, m.index_ptr_va - base) == idx
            &&& forall|x: int|
                0 <= x < img.len() && !(m.index_ptr_va - base <= x < m.index_ptr_va - base + 4)
                    ==> #[trigger] b[x] == img[x]
            &&& all.len() == cbs.len() + n
            &&& forall|i: int| 0 <= i < cbs.len() ==> #[trigger] all[i] == cbs[i]
            &&& forall|i: int|
                cbs.len() <= i < all.len() ==> #[trigger] all[i] == (
                base,
                bytes::le64(img, off + 8 * (i - cbs.len())),
            )
        }),
{
    let ix = m.index_ptr_va - base;
    let off = m.callbacks_va - base;
    let b = bytes::splice(img, ix, bytes::bytes32(idx as u32));
    bytes::lemma_le32_of_splice(img, ix, idx as u32);
    assert forall|i: int| 0 <= i <= n implies bytes::le64(b, #[trigger] (off + 8 * i))
        == bytes::le64(img, off + 8 * i) by {
        lemma_word_stays(b, img, off + 8 * i);
    }
    assert(bytes::le64(b, off + 8 * n) == 0);
    lemma_callbacks(cbs, b, base, off, n, 64);
    let all = pe_loader::with_callbacks(cbs, b, base, off, 64);
    assert forall|i: int| cbs.len() <= i < all.len() implies #[trigger] all[i] == (
        base,
        bytes::le64(img, off + 8 * (i - cbs.len())),
    ) by {
        let k = i - cbs.len();
        assert(bytes::le64(b, off + 8 * k) == bytes::le64(img, off + 8 * k));
    }
}

} // verus!
