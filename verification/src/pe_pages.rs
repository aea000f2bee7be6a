//! The fixed pages of a PE process: the TEB and PEB, process parameters and
//! loader lists, the synthetic system modules, and the small ring-3 code
//! pages that start threads, run initialisers and dispatch exceptions.
use vstd::prelude::*;

use crate::apc;
use crate::bytes;
use crate::bytes::{put, put16, put32, put64};
use crate::nt::{NT_BASE, NT_EXITPROCESS, NT_NTCONTINUE, NT_NTDLL_FLAG, NT_NTTERMINATEPROCESS};
use crate::process;
use crate::text;

verus! {

/// First of the pages mapped into every PE process.
pub const NT_STUB_BASE: u64 = 0x0000_7FF0_0000_0000;

pub const NT_STUB_STRIDE: u64 = 16;

pub const PE_TEB_ADDR: u64 = 0x0000_7FF0_0000_1000;

pub const PE_PEB_ADDR: u64 = 0x0000_7FF0_0000_2000;

/// Process parameters, loader data, and their strings.
pub const PE_PARAMS_ADDR: u64 = 0x0000_7FF0_0000_3000;

pub const PE_KERNEL32_ADDR: u64 = 0x0000_7FF0_0000_4000;

pub const PE_NTDLL_ADDR: u64 = 0x0000_7FF0_0000_5000;

/// Loader entries of the modules that came from files.
pub const PE_LDRDATA_ADDR: u64 = 0x0000_7FF0_0000_6000;

pub const PE_BOOTSTRAP_ADDR: u64 = 0x0000_7FF0_0000_7000;

pub const PE_TLS_ADDR: u64 = 0x0000_7FF0_0000_8000;

pub const PE_TEB2_ADDR: u64 = 0x0000_7FF0_0000_C000;

pub const PE_THREADSTART_ADDR: u64 = 0x0000_7FF0_0000_D000;

pub const PE_MSVCRT_ADDR: u64 = 0x0000_7FF0_0000_E000;

pub const PE_CRT_ADDR: u64 = 0x0000_7FF0_0000_F000;

pub const PE_INITTERM_ADDR: u64 = 0x0000_7FF0_0001_0000;

pub const PE_THREAD_STACK_ADDR: u64 = 0x0000_7FF0_0010_0000;

pub const PE_THREAD_STACK_BYTES: u64 = 0x8000;

/// Modules loaded from files take slots from here on.
pub const PE_DLL_ARENA: u64 = 0x0000_7FF0_0080_0000;

pub const PE_DLL_ARENA_END: u64 = 0x0000_7FF8_0000_0000;

/// Offsets within the parameters page.
pub const LDR_OFF: u64 = 0x100;

pub const MOD_OFF: u64 = 0x180;

pub const WSTR_OFF: u64 = 0x200;

pub const ANSI_CMDLINE_OFF: u64 = 0x400;

pub const ENV_OFF: u64 = 0x500;

pub const MOD2_OFF: u64 = 0x600;

pub const MOD3_OFF: u64 = 0x700;

pub const LDR_ENTRY_STRIDE: u64 = 0x80;

pub const LDRDATA_STR_OFF: u64 = 0x800;

pub const MAX_FILE_LDR_MODS: usize = 12;

/// Offsets within the bootstrap page.
pub const BOOTSTRAP_LIST_OFF: usize = 0x400;

pub const BOOTSTRAP_ENTRY_OFF: usize = 0x800;

/// Offsets within a synthetic module page.
pub const SYNTH_STUBS_OFF: u64 = 0x180;

pub const SYNTH_EXPDIR_OFF: u64 = 0x400;

/// What `GetCommandLineA` returns.
pub const PE_ANSI_CMDLINE_ADDR: u64 = 0x0000_7FF0_0000_3400;

/// What `GetProcessHeap` returns.
pub const PE_PROCESS_HEAP: u64 = 0x0000_7FF0_0000_0100;

// --- synthetic system modules ---

/// The selector a trampoline puts in `eax`.
pub open spec fn selector(flag: u16, idx: u16) -> u32 {
    (NT_BASE | flag as u64 | idx as u64) as u32
}

/// `mov eax, selector ; mov r10, rcx ; syscall ; ret`.
pub open spec fn trampoline(sel: u32) -> Seq<u8> {
    seq![0xB8u8] + bytes::bytes32(sel) + seq![0x49u8, 0x89, 0xCA, 0x0F, 0x05, 0xC3]
}

fn make_selector(flag: u16, idx: u16) -> (r: u32)
    ensures
        r == selector(flag, idx),
{
    (NT_BASE | flag as u64 | idx as u64) as u32
}

/// A module header that says PE32+, a DLL, one page, no sections.
pub open spec fn synth_head(image_base: u64) -> Seq<u8> {
    let b = bytes::zeros(4096);
    let b = bytes::splice(b, 0, seq![0x4Du8, 0x5A]);
    let b = apc::w32(b, 0x3C, 0x40);
    let b = bytes::splice(b, 0x40, seq![0x50u8, 0x45, 0, 0]);
    let b = apc::w16(b, 0x44, 0x8664);
    let b = apc::w16(b, 0x46, 0);
    let b = apc::w16(b, 0x54, 0xF0);
    let b = apc::w16(b, 0x56, 0x2022);
    let b = apc::w16(b, 0x58, 0x20B);
    let b = apc::w64(b, 0x70, image_base);
    let b = apc::w32(b, 0x78, 0x1000);
    let b = apc::w32(b, 0x7C, 0x200);
    let b = apc::w32(b, 0x90, 0x1000);
    let b = apc::w32(b, 0x94, 0x200);
    let b = apc::w16(b, 0x9C, 3);
    apc::w32(b, 0xC4, 16)
}

/// The page with the trampolines `[i, n)` in place; data exports have none.
pub open spec fn with_stubs(b: Seq<u8>, flag: u16, data: Seq<u16>, i: int, n: int) -> Seq<u8>
    decreases n - i,
{
    if i >= n {
        b
    } else {
        let next = if data.contains(i as u16) {
            b
        } else {
            bytes::splice(b, 0x180 + i * 16, trampoline(selector(flag, i as u16)))
        };
        with_stubs(next, flag, data, i + 1, n)
    }
}

/// The page with the export table rows `[i, n)` in place; names go from
/// `cur` on.
pub open spec fn with_rows(b: Seq<u8>, names: Seq<Seq<u8>>, i: int, cur: int) -> Seq<u8>
    decreases names.len() - i,
{
    let n = names.len();
    if i >= n {
        b
    } else {
        let b1 = apc::w32(b, 0x428 + i * 4, (0x180 + i * 16) as u32);
        let b2 = apc::w32(b1, 0x428 + n * 4 + i * 4, cur as u32);
        let b3 = apc::w16(b2, 0x428 + n * 8 + i * 2, i as u16);
        with_rows(bytes::splice(b3, cur, names[i]), names, i + 1, cur + names[i].len() + 1)
    }
}

/// One past the last byte of the export data.
pub open spec fn synth_end(dll: Seq<u8>, names: Seq<Seq<u8>>) -> int {
    0x428 + names.len() * 10 + dll.len() + 1 + process::cost(names)
}

/// A synthetic system module: header, one trampoline per export, and an
/// export directory that names each.
pub open spec fn synth_page(
    image_base: u64,
    dll: Seq<u8>,
    names: Seq<Seq<u8>>,
    flag: u16,
    data: Seq<u16>,
) -> Seq<u8> {
    let n = names.len();
    let name_rva = 0x428 + n as int * 10;
    let b = with_stubs(synth_head(image_base), flag, data, 0, n as int);
    let b = bytes::splice(b, name_rva, dll);
    let b = with_rows(b, names, 0, name_rva + dll.len() + 1);
    let b = apc::w32(b, 0x40C, name_rva as u32);
    let b = apc::w32(b, 0x410, 1);
    let b = apc::w32(b, 0x414, n as u32);
    let b = apc::w32(b, 0x418, n as u32);
    let b = apc::w32(b, 0x41C, 0x428);
    let b = apc::w32(b, 0x420, (0x428 + n * 4) as u32);
    let b = apc::w32(b, 0x424, (0x428 + n * 8) as u32);
    let b = apc::w32(b, 0xC8, 0x400);
    apc::w32(b, 0xCC, (synth_end(dll, names) - 0x400) as u32)
}

/// The export data does not fit its page.
pub open spec fn synth_overflows(dll: Seq<u8>, names: Seq<Seq<u8>>) -> bool {
    names.len() > 232 || synth_end(dll, names) > 4096
}

/// Where the name of export `i` begins.
pub open spec fn name_at(dll: Seq<u8>, names: Seq<Seq<u8>>, i: int) -> int {
    0x428 + names.len() * 10 + dll.len() + 1 + process::cost(names.take(i))
}

proof fn lemma_cost_step(names: Seq<Seq<u8>>, i: int)
    requires
        0 <= i < names.len(),
    ensures
        process::cost(names.take(i + 1)) == process::cost(names.take(i)) + names[i].len() + 1,
{
    assert(names.take(i + 1).drop_last() =~= names.take(i));
}

proof fn lemma_cost_rises(names: Seq<Seq<u8>>, i: int, j: int)
    requires
        0 <= i <= j <= names.len(),
    ensures
        0 <= process::cost(names.take(i)) <= process::cost(names.take(j)),
    decreases j,
{
    if i < j {
        lemma_cost_step(names, j - 1);
        lemma_cost_rises(names, i, j - 1);
    } else if j > 0 {
        lemma_cost_step(names, j - 1);
        lemma_cost_rises(names, j - 1, j - 1);
    } else {
        assert(names.take(0).len() == 0);
    }
}

/// Rows `[i, n)` leave what belongs to the rows before them, and what is in
/// front of the tables.
spec fn kept(n: int, i: int, cur: int, pos: int) -> bool {
    ||| 0 <= pos < 0x428 + 4 * i
    ||| 0x428 + 4 * n <= pos < 0x428 + 4 * n + 4 * i
    ||| 0x428 + 8 * n <= pos < 0x428 + 8 * n + 2 * i
    ||| 0x428 + 10 * n <= pos < cur
}

/// Row `j` of the export tables is in place.
pub open spec fn row_in_place(b: Seq<u8>, dll: Seq<u8>, names: Seq<Seq<u8>>, j: int) -> bool {
    let n = names.len() as int;
    let at = name_at(dll, names, j);
    &&& bytes::le32(b, 0x428 + 4 * j) == 0x180 + 16 * j
    &&& bytes::le32(b, 0x428 + 4 * n + 4 * j) == at
    &&& bytes::le16(b, 0x428 + 8 * n + 2 * j) == j
    &&& b.subrange(at, at + names[j].len()) == names[j]
}

/// The page with row `i` in place.
#[verifier::opaque]
spec fn row_put(b: Seq<u8>, names: Seq<Seq<u8>>, i: int, cur: int) -> Seq<u8> {
    let n = names.len();
    let b1 = apc::w32(b, 0x428 + i * 4, (0x180 + i * 16) as u32);
    let b2 = apc::w32(b1, 0x428 + n * 4 + i * 4, cur as u32);
    let b3 = apc::w16(b2, 0x428 + n * 8 + i * 2, i as u16);
    bytes::splice(b3, cur, names[i])
}

proof fn lemma_rows_step(b: Seq<u8>, names: Seq<Seq<u8>>, i: int, cur: int)
    requires
        0 <= i < names.len(),
    ensures
        with_rows(b, names, i, cur) == with_rows(
            row_put(b, names, i, cur),
            names,
            i + 1,
            cur + names[i].len() + 1,
        ),
{
    reveal(row_put);
}

proof fn lemma_row_put(b: Seq<u8>, names: Seq<Seq<u8>>, i: int, cur: int)
    requires
        b.len() == 4096,
        0 <= i < names.len() <= 232,
        0x428 + 10 * names.len() <= cur,
        cur + names[i].len() < 4096,
    ensures
        ({
            let n = names.len() as int;
            let r = row_put(b, names, i, cur);
            &&& r.len() == 4096
            &&& forall|pos: int| #[trigger] kept(n, i, cur, pos) ==> r[pos] == b[pos]
            &&& forall|pos: int| cur + names[i].len() <= pos < 4096 ==> #[trigger] r[pos] == b[pos]
            &&& bytes::le32(r, 0x428 + 4 * i) == 0x180 + 16 * i
            &&& bytes::le32(r, 0x428 + 4 * n + 4 * i) == cur
            &&& bytes::le16(r, 0x428 + 8 * n + 2 * i) == i
            &&& r.subrange(cur, cur + names[i].len()) == names[i]
        }),
{
    reveal(row_put);
    let n = names.len() as int;
    let p = 0x428 + 4 * i;
    let q = 0x428 + 4 * n + 4 * i;
    let o = 0x428 + 8 * n + 2 * i;
    let b1 = apc::w32(b, 0x428 + i * 4, (0x180 + i * 16) as u32);
    let b2 = apc::w32(b1, 0x428 + names.len() * 4 + i * 4, cur as u32);
    let b3 = apc::w16(b2, 0x428 + names.len() * 8 + i * 2, i as u16);
    let r = row_put(b, names, i, cur);
    bytes::lemma_le32_of_splice(b, p, (0x180 + i * 16) as u32);
    bytes::lemma_le32_of_splice(b1, q, cur as u32);
    bytes::lemma_le16_of_splice(b2, o, i as u16);
    assert(r[p] == b1[p] && r[p + 1] == b1[p + 1] && r[p + 2] == b1[p + 2] && r[p + 3] == b1[p + 3]);
    assert(r[q] == b2[q] && r[q + 1] == b2[q + 1] && r[q + 2] == b2[q + 2] && r[q + 3] == b2[q + 3]);
    assert(r[o] == b3[o] && r[o + 1] == b3[o + 1]);
    assert(r.subrange(cur, cur + names[i].len()) =~= names[i]);
}

proof fn lemma_row_stays(b: Seq<u8>, r: Seq<u8>, dll: Seq<u8>, names: Seq<Seq<u8>>, i: int)
    requires
        b.len() == 4096,
        r.len() == 4096,
        0 <= i < names.len() <= 232,
        0x428 + 10 * names.len() <= name_at(dll, names, i),
        name_at(dll, names, i) + names[i].len() < 4096,
        row_in_place(b, dll, names, i),
        forall|pos: int| #[trigger]
            kept(
                names.len() as int,
                i + 1,
                name_at(dll, names, i) + names[i].len() + 1,
                pos,
            ) ==> r[pos] == b[pos],
    ensures
        row_in_place(r, dll, names, i),
{
    let n = names.len() as int;
    let cur = name_at(dll, names, i);
    let next = cur + names[i].len() + 1;
    let p = 0x428 + 4 * i;
    let q = 0x428 + 4 * n + 4 * i;
    let o = 0x428 + 8 * n + 2 * i;
    assert(kept(n, i + 1, next, p) && kept(n, i + 1, next, p + 1) && kept(n, i + 1, next, p + 2)
        && kept(n, i + 1, next, p + 3));
    assert(kept(n, i + 1, next, q) && kept(n, i + 1, next, q + 1) && kept(n, i + 1, next, q + 2)
        && kept(n, i + 1, next, q + 3));
    assert(kept(n, i + 1, next, o) && kept(n, i + 1, next, o + 1));
    assert forall|k: int| 0 <= k < names[i].len() implies #[trigger] r.subrange(
        cur,
        cur + names[i].len(),
    )[k] == names[i][k] by {
        assert(kept(n, i + 1, next, cur + k));
        assert(b.subrange(cur, cur + names[i].len())[k] == b[cur + k]);
    }
    assert(r.subrange(cur, cur + names[i].len()) =~= names[i]);
}

proof fn lemma_rows(b: Seq<u8>, dll: Seq<u8>, names: Seq<Seq<u8>>, i: int)
    requires
        b.len() == 4096,
        0 <= i <= names.len() <= 232,
        synth_end(dll, names) <= 4096,
    ensures
        ({
            let n = names.len() as int;
            let cur = name_at(dll, names, i);
            let r = with_rows(b, names, i, cur);
            &&& r.len() == 4096
            &&& forall|pos: int| #[trigger] kept(n, i, cur, pos) ==> r[pos] == b[pos]
            &&& forall|j: int| i <= j < n ==> #[trigger] row_in_place(r, dll, names, j)
            &&& forall|j: int|
                i <= j < n ==> #[trigger] name_end(r, dll, names, j) == name_end(b, dll, names, j)
        }),
    decreases names.len() - i,
{
    let n = names.len() as int;
    let cur = name_at(dll, names, i);
    assert(names.take(n) =~= names);
    if i < n {
        lemma_cost_step(names, i);
        lemma_cost_rises(names, i + 1, n);
        lemma_cost_rises(names, 0, i);
        let next = name_at(dll, names, i + 1);
        let c = row_put(b, names, i, cur);
        lemma_row_put(b, names, i, cur);
        lemma_rows_step(b, names, i, cur);
        lemma_rows(c, dll, names, i + 1);
        let r = with_rows(c, names, i + 1, next);
        lemma_row_stays(c, r, dll, names, i);
        assert forall|pos: int| #[trigger] kept(n, i, cur, pos) implies r[pos] == b[pos] by {
            assert(kept(n, i + 1, next, pos));
        }
        assert forall|j: int| i <= j < n implies #[trigger] name_end(r, dll, names, j) == name_end(
            b,
            dll,
            names,
            j,
        ) by {
            let q = name_at(dll, names, j) + names[j].len();
            lemma_cost_step(names, j);
            lemma_cost_rises(names, j + 1, n);
            if j == i {
                assert(kept(n, i + 1, next, q));
            } else {
                lemma_cost_rises(names, i + 1, j);
                assert(name_end(r, dll, names, j) == name_end(c, dll, names, j));
            }
            assert(c[q] == b[q]);
        }
    }
}

/// The byte behind name `j`.
spec fn name_end(b: Seq<u8>, dll: Seq<u8>, names: Seq<Seq<u8>>, j: int) -> u8 {
    b[name_at(dll, names, j) + names[j].len()]
}

proof fn lemma_stubs(b: Seq<u8>, flag: u16, data: Seq<u16>, i: int, n: int)
    requires
        b.len() == 4096,
        0 <= i <= n <= 40,
    ensures
        ({
            let r = with_stubs(b, flag, data, i, n);
            &&& r.len() == 4096
            &&& forall|pos: int|
                0 <= pos < 0x180 + 16 * i || 0x180 + 16 * n <= pos < 4096 ==> #[trigger] r[pos] == b[pos]
            &&& forall|j: int|
                i <= j < n && !data.contains(j as u16) ==> #[trigger] r.subrange(
                    0x180 + 16 * j,
                    0x180 + 16 * j + 11,
                ) == trampoline(selector(flag, j as u16))
        }),
    decreases n - i,
{
    if i < n {
        let t = trampoline(selector(flag, i as u16));
        assert(t.len() == 11);
        let next = if data.contains(i as u16) {
            b
        } else {
            bytes::splice(b, 0x180 + i * 16, t)
        };
        lemma_stubs(next, flag, data, i + 1, n);
        let r = with_stubs(b, flag, data, i, n);
        if !data.contains(i as u16) {
            assert(r.subrange(0x180 + 16 * i, 0x180 + 16 * i + 11) =~= t);
        }
    }
}

/// A synthetic module's export directory says what it should: entry `j` of its
/// three tables leads to name `j` with a NUL behind it, to ordinal `j`, and to
/// trampoline `j`, which makes system call `j`. The trampolines have to end
/// before the directory begins.
pub proof fn law_exports_lead_to_their_trampolines(
    image_base: u64,
    dll: Seq<u8>,
    names: Seq<Seq<u8>>,
    flag: u16,
    data: Seq<u16>,
    j: int,
)
    requires
        !synth_overflows(dll, names),
        names.len() <= 40,
        0 <= j < names.len(),
    ensures
        ({
            let b = synth_page(image_base, dll, names, flag, data);
            let at = name_at(dll, names, j);
            &&& row_in_place(b, dll, names, j)
            &&& b[at + names[j].len()] == 0
            &&& !data.contains(j as u16) ==> b.subrange(0x180 + 16 * j, 0x180 + 16 * j + 11)
                == trampoline(selector(flag, j as u16))
        }),
{
    let n = names.len() as int;
    let b0 = with_stubs(synth_head(image_base), flag, data, 0, n);
    let b1 = bytes::splice(b0, 0x428 + n * 10, dll);
    assert(names.take(0).len() == 0);
    let cur = name_at(dll, names, 0);
    let b2 = with_rows(b1, names, 0, cur);
    let b3 = synth_page(image_base, dll, names, flag, data);
    lemma_start(image_base, dll, names, flag, data);
    lemma_rows(b1, dll, names, 0);
    lemma_tail_is_low(image_base, dll, names, flag, data);
    lemma_row_same(b2, b3, dll, names, j);
    let at = name_at(dll, names, j);
    let q = at + names[j].len();
    assert(names.take(n) =~= names);
    lemma_cost_step(names, j);
    lemma_cost_rises(names, j + 1, n);
    lemma_cost_rises(names, 0, j);
    assert(b3[q] == b2[q]);
    assert(name_end(b2, dll, names, j) == name_end(b1, dll, names, j));
    if !data.contains(j as u16) {
        let s = 0x180 + 16 * j;
        assert forall|k: int| 0 <= k < 11 implies #[trigger] b3.subrange(s, s + 11)[k] == b1.subrange(
            s,
            s + 11,
        )[k] by {
            assert(kept(n, 0, cur, s + k));
            assert(b3[s + k] == b2[s + k]);
        }
        assert(b3.subrange(s, s + 11) =~= b1.subrange(s, s + 11));
    }
}

/// The page before its export tables: the trampolines, and zeros behind the
/// module's name.
proof fn lemma_start(
    image_base: u64,
    dll: Seq<u8>,
    names: Seq<Seq<u8>>,
    flag: u16,
    data: Seq<u16>,
)
    requires
        names.len() <= 40,
    ensures
        ({
            let n = names.len() as int;
            let b1 = bytes::splice(
                with_stubs(synth_head(image_base), flag, data, 0, n),
                0x428 + n * 10,
                dll,
            );
            &&& b1.len() == 4096
            &&& forall|pos: int| 0x428 + n * 10 + dll.len() <= pos < 4096 ==> #[trigger] b1[pos] == 0
            &&& forall|j: int|
                0 <= j < n && !data.contains(j as u16) ==> #[trigger] b1.subrange(
                    0x180 + 16 * j,
                    0x180 + 16 * j + 11,
                ) == trampoline(selector(flag, j as u16))
        }),
{
    let n = names.len() as int;
    let head = synth_head(image_base);
    lemma_head_is_low(image_base);
    lemma_stubs(head, flag, data, 0, n);
    let b0 = with_stubs(head, flag, data, 0, n);
    let b1 = bytes::splice(b0, 0x428 + n * 10, dll);
    assert forall|j: int| 0 <= j < n && !data.contains(j as u16) implies #[trigger] b1.subrange(
        0x180 + 16 * j,
        0x180 + 16 * j + 11,
    ) == trampoline(selector(flag, j as u16)) by {
        let s = 0x180 + 16 * j;
        assert(b1.subrange(s, s + 11) =~= b0.subrange(s, s + 11));
    }
}

/// The header leaves everything past its end zero.
proof fn lemma_head_is_low(image_base: u64)
    ensures
        synth_head(image_base).len() == 4096,
        forall|pos: int| 0xC8 <= pos < 4096 ==> #[trigger] synth_head(image_base)[pos] == 0,
{
}

/// What is written last goes to the header and the directory alone.
proof fn lemma_tail_is_low(
    image_base: u64,
    dll: Seq<u8>,
    names: Seq<Seq<u8>>,
    flag: u16,
    data: Seq<u16>,
)
    ensures
        ({
            let n = names.len() as int;
            let b1 = bytes::splice(
                with_stubs(synth_head(image_base), flag, data, 0, n),
                0x428 + n * 10,
                dll,
            );
            let b2 = with_rows(b1, names, 0, 0x428 + n * 10 + dll.len() + 1);
            let b3 = synth_page(image_base, dll, names, flag, data);
            &&& b3.len() == b2.len()
            &&& forall|pos: int|
                0x428 <= pos < b2.len() || 0x180 <= pos < 0x400 && pos < b2.len()
                    ==> #[trigger] b3[pos] == b2[pos]
        }),
{
}

proof fn lemma_row_same(b2: Seq<u8>, b3: Seq<u8>, dll: Seq<u8>, names: Seq<Seq<u8>>, j: int)
    requires
        b2.len() == 4096,
        b3.len() == 4096,
        0 <= j < names.len() <= 232,
        synth_end(dll, names) <= 4096,
        forall|pos: int| 0x428 <= pos < 4096 ==> #[trigger] b3[pos] == b2[pos],
        row_in_place(b2, dll, names, j),
    ensures
        row_in_place(b3, dll, names, j),
{
    let n = names.len() as int;
    let at = name_at(dll, names, j);
    assert(names.take(n) =~= names);
    lemma_cost_step(names, j);
    lemma_cost_rises(names, j + 1, n);
    lemma_cost_rises(names, 0, j);
    assert(b3.subrange(at, at + names[j].len()) =~= b2.subrange(at, at + names[j].len()));
}

fn holds(data: &[u16], v: u16) -> (r: bool)
    ensures
        r == data@.contains(v),
{
    let n: usize = data.len();
    let mut i: usize = 0;
    while i < n
        invariant
            i <= n,
            n == data@.len(),
            forall|k: int| 0 <= k < i ==> data@[k] != v,
        decreases n - i,
    {
        if data[i] == v {
            assert(data@[i as int] == v);
            return true;
        }
        i = i + 1;
    }
    false
}

fn write_head(image_base: u64) -> (b: Vec<u8>)
    ensures
        b@ == synth_head(image_base),
        b@.len() == 4096,
{
    let mut b = crate::bytes::zeroed(4096);
    let mz: Vec<u8> = vec![0x4Du8, 0x5A];
    put(&mut b, 0, mz.as_slice());
    put32(&mut b, 0x3C, 0x40);
    let sig: Vec<u8> = vec![0x50u8, 0x45, 0, 0];
    put(&mut b, 0x40, sig.as_slice());
    put16(&mut b, 0x44, 0x8664);
    put16(&mut b, 0x46, 0);
    put16(&mut b, 0x54, 0xF0);
    put16(&mut b, 0x56, 0x2022);
    put16(&mut b, 0x58, 0x20B);
    put64(&mut b, 0x70, image_base);
    put32(&mut b, 0x78, 0x1000);
    put32(&mut b, 0x7C, 0x200);
    put32(&mut b, 0x90, 0x1000);
    put32(&mut b, 0x94, 0x200);
    put16(&mut b, 0x9C, 3);
    put32(&mut b, 0xC4, 16);
    b
}

fn write_stubs(b: &mut Vec<u8>, flag: u16, data: &[u16], n: usize)
    requires
        old(b)@.len() == 4096,
        n <= 232,
    ensures
        final(b)@ == with_stubs(old(b)@, flag, data@, 0, n as int),
        final(b)@.len() == 4096,
{
    let mut i: usize = 0;
    while i < n
        invariant
            i <= n,
            n <= 232,
            b@.len() == 4096,
            with_stubs(old(b)@, flag, data@, 0, n as int) == with_stubs(
                b@,
                flag,
                data@,
                i as int,
                n as int,
            ),
        decreases n - i,
    {
        let idx: u16 = i as u16;
        if !holds(data, idx) {
            let sel = crate::bytes::to_bytes32(make_selector(flag, idx));
            let mut stub: Vec<u8> = vec![0xB8u8];
            crate::bytes::extend(&mut stub, sel.as_slice());
            let tail: Vec<u8> = vec![0x49u8, 0x89, 0xCA, 0x0F, 0x05, 0xC3];
            crate::bytes::extend(&mut stub, tail.as_slice());
            assert(stub@ =~= trampoline(selector(flag, idx)));
            put(b, 0x180 + i * 16, stub.as_slice());
        }
        i = i + 1;
    }
}

fn write_rows(b: &mut Vec<u8>, exports: &[&str], start: usize)
    requires
        old(b)@.len() == 4096,
        exports@.len() <= 232,
        0x428 + exports@.len() * 10 <= start,
        start + process::cost(process::utf8_of(exports@)) <= 4096,
    ensures
        final(b)@ == with_rows(old(b)@, process::utf8_of(exports@), 0, start as int),
        final(b)@.len() == 4096,
{
    let ghost names = process::utf8_of(exports@);
    let n: usize = exports.len();
    let mut cur: usize = start;
    let mut i: usize = 0;
    assert(names.skip(0) =~= names);
    while i < n
        invariant
            i <= n,
            n == exports@.len(),
            n <= 232,
            names == process::utf8_of(exports@),
            0x428 + n * 10 <= cur,
            cur + process::cost(names.skip(i as int)) <= 4096,
            b@.len() == 4096,
            with_rows(old(b)@, names, 0, start as int) == with_rows(
                b@,
                names,
                i as int,
                cur as int,
            ),
        decreases n - i,
    {
        proof {
            crate::process::lemma_cost_first(names.skip(i as int));
            assert(names.skip(i as int)[0] == names[i as int]);
            assert(names.skip(i as int).skip(1) =~= names.skip(i + 1));
        }
        put32(b, 0x428 + i * 4, (0x180 + i * 16) as u32);
        put32(b, 0x428 + n * 4 + i * 4, cur as u32);
        put16(b, 0x428 + n * 8 + i * 2, i as u16);
        let fb = exports[i].as_bytes();
        assert(fb@ == names[i as int]);
        let len: usize = fb.len();
        put(b, cur, fb);
        cur = cur + len + 1;
        i = i + 1;
    }
}

/// Build a synthetic system module page.
pub fn build_synth(
    image_base: u64,
    dll_name: &str,
    exports: &[&str],
    sel_flag: u16,
    data_exports: &[u16],
) -> (r: Result<Vec<u8>, &'static str>)
    ensures
        ({
            let dll = vstd::utf8::encode_utf8(dll_name@);
            let names = process::utf8_of(exports@);
            if synth_overflows(dll, names) {
                r == Err::<Vec<u8>, &'static str>("PE: synthetic DLL overflows its page")
            } else {
                &&& r is Ok
                &&& r->Ok_0@ == synth_page(image_base, dll, names, sel_flag, data_exports@)
                &&& r->Ok_0@.len() == 4096
            }
        }),
{
    let n: usize = exports.len();
    let dll = dll_name.as_bytes();
    let dlen: usize = dll.len();
    let ghost names = process::utf8_of(exports@);
    if n > 232 {
        return Err("PE: synthetic DLL overflows its page");
    }
    proof {
        crate::process::lemma_cost_mono(names, names.len() as int);
        assert(names.take(names.len() as int) =~= names);
    }
    let fixed: u64 = 0x428 + n as u64 * 10 + 1;
    if dlen as u64 > 4096 - fixed {
        return Err("PE: synthetic DLL overflows its page");
    }
    let text: u64 = match crate::process::measure(exports, 4096 - fixed - dlen as u64) {
        Some(t) => t,
        None => { return Err("PE: synthetic DLL overflows its page"); },
    };
    let mut b = write_head(image_base);
    write_stubs(&mut b, sel_flag, data_exports, n);
    let name_rva: usize = 0x428 + n * 10;
    put(&mut b, name_rva, dll);
    write_rows(&mut b, exports, name_rva + dlen + 1);
    let end: usize = name_rva + dlen + 1 + text as usize;
    put32(&mut b, 0x40C, name_rva as u32);
    put32(&mut b, 0x410, 1);
    put32(&mut b, 0x414, n as u32);
    put32(&mut b, 0x418, n as u32);
    put32(&mut b, 0x41C, 0x428);
    put32(&mut b, 0x420, (0x428 + n * 4) as u32);
    put32(&mut b, 0x424, (0x428 + n * 8) as u32);
    put32(&mut b, 0xC8, 0x400);
    put32(&mut b, 0xCC, (end - 0x400) as u32);
    Ok(b)
}

// --- code pages ---

/// A zeroed page with `code` at its start.
pub open spec fn code_page(code: Seq<u8>) -> Seq<u8> {
    bytes::splice(bytes::zeros(4096), 0, code)
}

fn build_code(code: &[u8]) -> (r: Vec<u8>)
    requires
        code@.len() <= 4096,
    ensures
        r@ == code_page(code@),
        r@.len() == 4096,
{
    let mut b = crate::bytes::zeroed(4096);
    put(&mut b, 0, code);
    b
}

/// `mov r10, rcx ; syscall ; ud2`.
pub open spec fn call_tail() -> Seq<u8> {
    seq![0x49u8, 0x89, 0xCA, 0x0F, 0x05, 0x0F, 0x0B]
}

/// `KiUserExceptionDispatcher`: run the vectored handler on
/// `&EXCEPTION_POINTERS`, then `NtContinue` when it says so, else
/// `NtTerminateProcess`.
pub open spec fn seh_code() -> Seq<u8> {
    seq![
        0x53u8, 0x48, 0x89, 0xD3, 0x48, 0x83, 0xEC, 0x38, 0x48, 0x89, 0x4C, 0x24, 0x20, 0x48, 0x89,
        0x54, 0x24, 0x28, 0x48, 0xB8] + bytes::bytes64(crate::seh::PE_EXC_ADDR) + seq![
        0x48u8, 0x8B, 0x00, 0x48, 0x85, 0xC0, 0x74, 0x1D, 0x48, 0x8D, 0x4C, 0x24, 0x20, 0xFF, 0xD0,
        0x83, 0xF8, 0xFF, 0x75, 0x11, 0x48, 0x89, 0xD9, 0x31, 0xD2, 0xB8] + bytes::bytes32(
        selector(NT_NTDLL_FLAG, NT_NTCONTINUE),
    ) + call_tail() + seq![
        0x48u8, 0x8B, 0x44, 0x24, 0x20, 0x8B, 0x10, 0x48, 0xC7, 0xC1, 0xFF, 0xFF, 0xFF, 0xFF, 0xB8]
        + bytes::bytes32(selector(NT_NTDLL_FLAG, NT_NTTERMINATEPROCESS)) + call_tail()
}

/// `KiUserApcDispatcher`: load the APC parameters from the `CONTEXT` home
/// area, call the routine, then `NtContinue` with a test for more APCs.
pub open spec fn apc_code() -> Seq<u8> {
    seq![
        0x48u8, 0x8B, 0x44, 0x24, 0x18, 0x48, 0x8B, 0x0C, 0x24, 0x48, 0x8B, 0x54, 0x24, 0x08, 0x4C,
        0x8B, 0x44, 0x24, 0x10, 0x48, 0x89, 0xE3, 0xFF, 0xD0, 0x48, 0x89, 0xD9, 0xBA, 0x01, 0x00,
        0x00, 0x00, 0xB8] + bytes::bytes32(selector(NT_NTDLL_FLAG, NT_NTCONTINUE)) + call_tail()
}

/// The worker-thread entry: pop the routine and its argument, call it, then
/// terminate the thread with its result through service `term`.
pub open spec fn thread_start_code(term: u16) -> Seq<u8> {
    seq![
        0x58u8, 0x59, 0x48, 0x83, 0xEC, 0x20, 0xFF, 0xD0, 0x48, 0x83, 0xC4, 0x20, 0x89, 0xC2, 0x48,
        0xC7, 0xC1, 0xFE, 0xFF, 0xFF, 0xFF, 0xB8] + bytes::bytes32(selector(NT_NTDLL_FLAG, term))
        + call_tail()
}

/// `_initterm`: call each non-null function pointer in `[rcx, rdx)`.
pub open spec fn initterm_code() -> Seq<u8> {
    seq![
        0x53u8, 0x56, 0x57, 0x48, 0x89, 0xCB, 0x48, 0x89, 0xD7, 0x48, 0x83, 0xEC, 0x20, 0x48, 0x39,
        0xFB, 0x73, 0x10, 0x48, 0x8B, 0x03, 0x48, 0x83, 0xC3, 0x08, 0x48, 0x85, 0xC0, 0x74, 0xEF,
        0xFF, 0xD0, 0xEB, 0xEB, 0x48, 0x83, 0xC4, 0x20, 0x5F, 0x5E, 0x5B, 0x31, 0xC0, 0xC3]
}

fn tail_bytes() -> (r: Vec<u8>)
    ensures
        r@ == call_tail(),
{
    vec![0x49u8, 0x89, 0xCA, 0x0F, 0x05, 0x0F, 0x0B]
}

/// The exception dispatcher page.
pub fn build_seh() -> (r: Vec<u8>)
    ensures
        r@ == code_page(seh_code()),
        r@.len() == 4096,
{
    let mut c: Vec<u8> = vec![
        0x53u8, 0x48, 0x89, 0xD3, 0x48, 0x83, 0xEC, 0x38, 0x48, 0x89, 0x4C, 0x24, 0x20, 0x48, 0x89,
        0x54, 0x24, 0x28, 0x48, 0xB8];
    let slot = crate::bytes::to_bytes64(crate::seh::PE_EXC_ADDR);
    crate::bytes::extend(&mut c, slot.as_slice());
    let mid: Vec<u8> = vec![
        0x48u8, 0x8B, 0x00, 0x48, 0x85, 0xC0, 0x74, 0x1D, 0x48, 0x8D, 0x4C, 0x24, 0x20, 0xFF, 0xD0,
        0x83, 0xF8, 0xFF, 0x75, 0x11, 0x48, 0x89, 0xD9, 0x31, 0xD2, 0xB8];
    crate::bytes::extend(&mut c, mid.as_slice());
    let cont = crate::bytes::to_bytes32(make_selector(NT_NTDLL_FLAG, NT_NTCONTINUE));
    crate::bytes::extend(&mut c, cont.as_slice());
    let tail = tail_bytes();
    crate::bytes::extend(&mut c, tail.as_slice());
    let fail: Vec<u8> = vec![
        0x48u8, 0x8B, 0x44, 0x24, 0x20, 0x8B, 0x10, 0x48, 0xC7, 0xC1, 0xFF, 0xFF, 0xFF, 0xFF, 0xB8];
    crate::bytes::extend(&mut c, fail.as_slice());
    let term = crate::bytes::to_bytes32(make_selector(NT_NTDLL_FLAG, NT_NTTERMINATEPROCESS));
    crate::bytes::extend(&mut c, term.as_slice());
    crate::bytes::extend(&mut c, tail.as_slice());
    build_code(c.as_slice())
}

/// The APC dispatcher page.
pub fn build_apc() -> (r: Vec<u8>)
    ensures
        r@ == code_page(apc_code()),
        r@.len() == 4096,
{
    let mut c: Vec<u8> = vec![
        0x48u8, 0x8B, 0x44, 0x24, 0x18, 0x48, 0x8B, 0x0C, 0x24, 0x48, 0x8B, 0x54, 0x24, 0x08, 0x4C,
        0x8B, 0x44, 0x24, 0x10, 0x48, 0x89, 0xE3, 0xFF, 0xD0, 0x48, 0x89, 0xD9, 0xBA, 0x01, 0x00,
        0x00, 0x00, 0xB8];
    let cont = crate::bytes::to_bytes32(make_selector(NT_NTDLL_FLAG, NT_NTCONTINUE));
    crate::bytes::extend(&mut c, cont.as_slice());
    let tail = tail_bytes();
    crate::bytes::extend(&mut c, tail.as_slice());
    build_code(c.as_slice())
}

/// The worker-thread entry page.
pub fn build_thread_start(term: u16) -> (r: Vec<u8>)
    ensures
        r@ == code_page(thread_start_code(term)),
        r@.len() == 4096,
{
    let mut c: Vec<u8> = vec![
        0x58u8, 0x59, 0x48, 0x83, 0xEC, 0x20, 0xFF, 0xD0, 0x48, 0x83, 0xC4, 0x20, 0x89, 0xC2, 0x48,
        0xC7, 0xC1, 0xFE, 0xFF, 0xFF, 0xFF, 0xB8];
    let sel = crate::bytes::to_bytes32(make_selector(NT_NTDLL_FLAG, term));
    crate::bytes::extend(&mut c, sel.as_slice());
    let tail = tail_bytes();
    crate::bytes::extend(&mut c, tail.as_slice());
    build_code(c.as_slice())
}

/// The `_initterm` page.
pub fn build_initterm() -> (r: Vec<u8>)
    ensures
        r@ == code_page(initterm_code()),
        r@.len() == 4096,
{
    let c: Vec<u8> = vec![
        0x53u8, 0x56, 0x57, 0x48, 0x89, 0xCB, 0x48, 0x89, 0xD7, 0x48, 0x83, 0xEC, 0x20, 0x48, 0x39,
        0xFB, 0x73, 0x10, 0x48, 0x8B, 0x03, 0x48, 0x83, 0xC3, 0x08, 0x48, 0x85, 0xC0, 0x74, 0xEF,
        0xFF, 0xD0, 0xEB, 0xEB, 0x48, 0x83, 0xC4, 0x20, 0x5F, 0x5E, 0x5B, 0x31, 0xC0, 0xC3];
    assert(c@ =~= initterm_code());
    build_code(c.as_slice())
}

/// The CRT scratch page: `FILE[3]` with descriptors 0, 1, 2; a `struct lconv`
/// whose decimal point is `.` and whose other strings are empty.
pub open spec fn crt_page() -> Seq<u8> {
    let b = bytes::zeros(4096);
    let b = apc::w32(b, 28, 0);
    let b = apc::w32(b, 76, 1);
    let b = apc::w32(b, 124, 2);
    let b = bytes::splice(b, 0x180, seq![0x2Eu8, 0]);
    let b = apc::w64(b, 0x108, 0x0000_7FF0_0000_F180);
    let b = apc::w64(b, 0x110, 0x0000_7FF0_0000_F181);
    let b = apc::w64(b, 0x118, 0x0000_7FF0_0000_F181);
    let b = apc::w64(b, 0x120, 0x0000_7FF0_0000_F181);
    let b = apc::w64(b, 0x128, 0x0000_7FF0_0000_F181);
    let b = apc::w64(b, 0x130, 0x0000_7FF0_0000_F181);
    let b = apc::w64(b, 0x138, 0x0000_7FF0_0000_F181);
    apc::w64(b, 0x140, 0x0000_7FF0_0000_F181)
}

pub fn build_crt() -> (b: Vec<u8>)
    ensures
        b@ == crt_page(),
        b@.len() == 4096,
{
    let mut b = crate::bytes::zeroed(4096);
    put32(&mut b, 28, 0);
    put32(&mut b, 76, 1);
    put32(&mut b, 124, 2);
    let dot: Vec<u8> = vec![0x2Eu8, 0];
    put(&mut b, 0x180, dot.as_slice());
    put64(&mut b, 0x108, PE_CRT_ADDR + 0x180);
    put64(&mut b, 0x110, PE_CRT_ADDR + 0x181);
    put64(&mut b, 0x118, PE_CRT_ADDR + 0x181);
    put64(&mut b, 0x120, PE_CRT_ADDR + 0x181);
    put64(&mut b, 0x128, PE_CRT_ADDR + 0x181);
    put64(&mut b, 0x130, PE_CRT_ADDR + 0x181);
    put64(&mut b, 0x138, PE_CRT_ADDR + 0x181);
    put64(&mut b, 0x140, PE_CRT_ADDR + 0x181);
    b
}

// --- process bootstrap ---

/// The loop that calls every `{base, routine}` pair of the list with
/// `(base, DLL_PROCESS_ATTACH, 1)`, the first `n_tls` results ignored, a
/// false result after that ending the process, and then jumps to the program.
pub open spec fn bootstrap_code(n_tls: u32) -> Seq<u8> {
    seq![0x48u8, 0xBB] + bytes::bytes64(0x0000_7FF0_0000_7400) + seq![0x41u8, 0xBD] + bytes::bytes32(n_tls)
        + seq![
        0x45u8, 0x31, 0xF6, 0x48, 0x8B, 0x03, 0x48, 0x85, 0xC0, 0x0F, 0x84, 0x42, 0x00, 0x00, 0x00,
        0x48, 0x89, 0xC1, 0xBA, 0x01, 0x00, 0x00, 0x00, 0x41, 0xB8, 0x01, 0x00, 0x00, 0x00, 0x48,
        0x8B, 0x73, 0x08, 0x48, 0x83, 0xEC, 0x28, 0xFF, 0xD6, 0x48, 0x83, 0xC4, 0x28, 0x45, 0x39,
        0xEE, 0x72, 0x04, 0x85, 0xC0, 0x74, 0x0C, 0x41, 0xFF, 0xC6, 0x48, 0x83, 0xC3, 0x10, 0xE9,
        0xC3, 0xFF, 0xFF, 0xFF, 0xB9, 0x35, 0x01, 0x00, 0x00, 0xB8] + bytes::bytes32(
        selector(0, NT_EXITPROCESS),
    ) + call_tail() + seq![0x48u8, 0x8B, 0x05, 0x98, 0x07, 0x00, 0x00, 0xFF, 0xE0]
}

/// The `{base, routine}` pairs `[i, n)` laid out from `o` on.
pub open spec fn with_pairs(b: Seq<u8>, init: Seq<(u64, u64)>, i: int, o: int) -> Seq<u8>
    decreases init.len() - i,
{
    if i >= init.len() {
        b
    } else {
        with_pairs(apc::w64(apc::w64(b, o, init[i].0), o + 8, init[i].1), init, i + 1, o + 16)
    }
}

pub open spec fn bootstrap_page(init: Seq<(u64, u64)>, n_tls: u32, exe_entry: u64) -> Seq<u8> {
    let b = with_pairs(bytes::zeros(4096), init, 0, 0x400);
    let b = apc::w64(b, 0x800, exe_entry);
    bytes::splice(b, 0, bootstrap_code(n_tls))
}

/// Build the process-bootstrap page.
pub fn build_bootstrap(init: &[(u64, u64)], n_tls: u32, exe_entry: u64) -> (r: Result<
    Vec<u8>,
    &'static str,
>)
    ensures
        if init@.len() > 63 {
            r == Err::<Vec<u8>, &'static str>(
                "PE: too many init routines for the bootstrap page",
            )
        } else {
            &&& r is Ok
            &&& r->Ok_0@ == bootstrap_page(init@, n_tls, exe_entry)
            &&& r->Ok_0@.len() == 4096
        },
{
    let n: usize = init.len();
    if n > 63 {
        return Err("PE: too many init routines for the bootstrap page");
    }
    let mut b = crate::bytes::zeroed(4096);
    let ghost b0 = b@;
    let mut i: usize = 0;
    while i < n
        invariant
            i <= n,
            n == init@.len(),
            n <= 63,
            b@.len() == 4096,
            with_pairs(b0, init@, 0, 0x400) == with_pairs(b@, init@, i as int, 0x400 + 16 * i),
        decreases n - i,
    {
        let o: usize = BOOTSTRAP_LIST_OFF + 16 * i;
        put64(&mut b, o, init[i].0);
        put64(&mut b, o + 8, init[i].1);
        i = i + 1;
    }
    put64(&mut b, BOOTSTRAP_ENTRY_OFF, exe_entry);
    let mut c: Vec<u8> = vec![0x48u8, 0xBB];
    let list = crate::bytes::to_bytes64(PE_BOOTSTRAP_ADDR + BOOTSTRAP_LIST_OFF as u64);
    crate::bytes::extend(&mut c, list.as_slice());
    let mov: Vec<u8> = vec![0x41u8, 0xBD];
    crate::bytes::extend(&mut c, mov.as_slice());
    let count = crate::bytes::to_bytes32(n_tls);
    crate::bytes::extend(&mut c, count.as_slice());
    let body: Vec<u8> = vec![
        0x45u8, 0x31, 0xF6, 0x48, 0x8B, 0x03, 0x48, 0x85, 0xC0, 0x0F, 0x84, 0x42, 0x00, 0x00, 0x00,
        0x48, 0x89, 0xC1, 0xBA, 0x01, 0x00, 0x00, 0x00, 0x41, 0xB8, 0x01, 0x00, 0x00, 0x00, 0x48,
        0x8B, 0x73, 0x08, 0x48, 0x83, 0xEC, 0x28, 0xFF, 0xD6, 0x48, 0x83, 0xC4, 0x28, 0x45, 0x39,
        0xEE, 0x72, 0x04, 0x85, 0xC0, 0x74, 0x0C, 0x41, 0xFF, 0xC6, 0x48, 0x83, 0xC3, 0x10, 0xE9,
        0xC3, 0xFF, 0xFF, 0xFF, 0xB9, 0x35, 0x01, 0x00, 0x00, 0xB8];
    crate::bytes::extend(&mut c, body.as_slice());
    let exit = crate::bytes::to_bytes32(make_selector(0, NT_EXITPROCESS));
    crate::bytes::extend(&mut c, exit.as_slice());
    let tail = tail_bytes();
    crate::bytes::extend(&mut c, tail.as_slice());
    let jump: Vec<u8> = vec![0x48u8, 0x8B, 0x05, 0x98, 0x07, 0x00, 0x00, 0xFF, 0xE0];
    crate::bytes::extend(&mut c, jump.as_slice());
    put(&mut b, 0, c.as_slice());
    Ok(b)
}

// --- TEB, PEB, process parameters, loader lists ---

pub open spec fn teb_page(stack_top: u64, tls_ptr: u64) -> Seq<u8> {
    let b = bytes::zeros(4096);
    let b = apc::w64(b, 0x08, stack_top);
    let b = apc::w64(b, 0x10, if stack_top < 0x10000 { 0 } else { (stack_top - 0x10000) as u64 });
    let b = apc::w64(b, 0x30, PE_TEB_ADDR);
    let b = apc::w64(b, 0x58, tls_ptr);
    apc::w64(b, 0x60, PE_PEB_ADDR)
}

/// The thread environment block of a process's first thread.
pub fn build_teb(stack_top: u64, tls_ptr: u64) -> (b: Vec<u8>)
    ensures
        b@ == teb_page(stack_top, tls_ptr),
        b@.len() == 4096,
{
    let mut b = crate::bytes::zeroed(4096);
    put64(&mut b, 0x08, stack_top);
    put64(&mut b, 0x10, if stack_top < 0x10000 { 0 } else { stack_top - 0x10000 });
    put64(&mut b, 0x30, PE_TEB_ADDR);
    put64(&mut b, 0x58, tls_ptr);
    put64(&mut b, 0x60, PE_PEB_ADDR);
    b
}

pub open spec fn peb_page(image_base: u64) -> Seq<u8> {
    let b = bytes::zeros(4096);
    let b = apc::w64(b, 0x10, image_base);
    let b = apc::w64(b, 0x18, (PE_PARAMS_ADDR + LDR_OFF) as u64);
    let b = apc::w64(b, 0x20, PE_PARAMS_ADDR);
    apc::w64(b, 0x30, PE_PROCESS_HEAP)
}

/// The process environment block.
pub fn build_peb(image_base: u64) -> (b: Vec<u8>)
    ensures
        b@ == peb_page(image_base),
        b@.len() == 4096,
{
    let mut b = crate::bytes::zeroed(4096);
    put64(&mut b, 0x10, image_base);
    put64(&mut b, 0x18, PE_PARAMS_ADDR + LDR_OFF);
    put64(&mut b, 0x20, PE_PARAMS_ADDR);
    put64(&mut b, 0x30, PE_PROCESS_HEAP);
    b
}

/// `s` as UTF-16LE at `at`, with its terminating NUL word.
#[verifier::opaque]
pub open spec fn wide_at(b: Seq<u8>, at: int, s: Seq<char>) -> Seq<u8> {
    bytes::splice(b, at, text::wide(s) + seq![0u8, 0u8])
}

fn put_wide(b: &mut Vec<u8>, at: usize, s: &[char]) -> (n: usize)
    requires
        at + text::wide(s@).len() + 2 <= old(b)@.len(),
    ensures
        final(b)@ == wide_at(old(b)@, at as int, s@),
        final(b)@.len() == old(b)@.len(),
        n == text::wide(s@).len(),
{
    reveal(wide_at);
    let mut w = crate::text::to_wide(s);
    let n: usize = w.len();
    let nul: Vec<u8> = vec![0u8, 0];
    crate::bytes::extend(&mut w, nul.as_slice());
    put(b, at, w.as_slice());
    n
}

fn put_wide_str(b: &mut Vec<u8>, at: usize, s: &str)
    requires
        at + 4 * s@.len() + 2 <= old(b)@.len(),
    ensures
        final(b)@ == wide_at(old(b)@, at as int, s@),
        final(b)@.len() == old(b)@.len(),
{
    let c = crate::text::chars_of(s);
    let w = crate::text::to_wide(c.as_slice());
    let _n = put_wide(b, at, c.as_slice());
}

/// The strings of the parameters page, each at its fixed place.
#[verifier::opaque]
pub open spec fn params_strings() -> Seq<u8> {
    let b = bytes::zeros(4096);
    let b = wide_at(b, 0x200, "C:\\pe-hello.exe"@);
    let b = wide_at(b, 0x220, "pe-hello.exe"@);
    let b = wide_at(b, 0x23A, "pe-hello.exe"@);
    let b = wide_at(b, 0x254, "C:\\"@);
    let b = wide_at(b, 0x25C, "C:\\Windows\\System32\\KERNEL32.DLL"@);
    let b = wide_at(b, 0x29E, "KERNEL32.DLL"@);
    let b = wide_at(b, 0x2B8, "C:\\Windows\\System32\\NTDLL.DLL"@);
    wide_at(b, 0x2F4, "NTDLL.DLL"@)
}

fn build_params_strings() -> (b: Vec<u8>)
    ensures
        b@ == params_strings(),
        b@.len() == 4096,
{
    reveal(params_strings);
    proof {
        reveal_strlit("C:\\pe-hello.exe");
        reveal_strlit("pe-hello.exe");
        reveal_strlit("C:\\");
        reveal_strlit("C:\\Windows\\System32\\KERNEL32.DLL");
        reveal_strlit("KERNEL32.DLL");
        reveal_strlit("C:\\Windows\\System32\\NTDLL.DLL");
        reveal_strlit("NTDLL.DLL");
    }
    let mut b = crate::bytes::zeroed(4096);
    put_wide_str(&mut b, 0x200, "C:\\pe-hello.exe");
    put_wide_str(&mut b, 0x220, "pe-hello.exe");
    put_wide_str(&mut b, 0x23A, "pe-hello.exe");
    put_wide_str(&mut b, 0x254, "C:\\");
    put_wide_str(&mut b, 0x25C, "C:\\Windows\\System32\\KERNEL32.DLL");
    put_wide_str(&mut b, 0x29E, "KERNEL32.DLL");
    put_wide_str(&mut b, 0x2B8, "C:\\Windows\\System32\\NTDLL.DLL");
    put_wide_str(&mut b, 0x2F4, "NTDLL.DLL");
    b
}

/// A `UNICODE_STRING` of `len` bytes at `va`.
#[verifier::opaque]
pub open spec fn unicode_at(b: Seq<u8>, off: int, len: u16, va: u64) -> Seq<u8> {
    apc::w64(apc::w16(apc::w16(b, off, len), off + 2, (len + 2) as u16), off + 8, va)
}

fn put_unicode(b: &mut Vec<u8>, off: usize, len: u16, va: u64)
    requires
        old(b)@.len() == 4096,
        off + 16 <= 4096,
        len < 0xFFFE,
    ensures
        final(b)@ == unicode_at(old(b)@, off as int, len, va),
        final(b)@.len() == old(b)@.len(),
{
    reveal(unicode_at);
    put16(b, off, len);
    put16(b, off + 2, len + 2);
    put64(b, off + 8, va);
}

/// The `RTL_USER_PROCESS_PARAMETERS` fields.
#[verifier::opaque]
pub open spec fn with_params(b: Seq<u8>) -> Seq<u8> {
    let b = apc::w64(b, 0x00, 0x1000);
    let b = apc::w64(b, 0x04, 0x1000);
    let b = apc::w64(b, 0x20, 0);
    let b = apc::w64(b, 0x28, 1);
    let b = apc::w64(b, 0x30, 2);
    let b = unicode_at(b, 0x38, 6, (PE_PARAMS_ADDR + 0x254) as u64);
    let b = unicode_at(b, 0x60, 30, (PE_PARAMS_ADDR + 0x200) as u64);
    let b = unicode_at(b, 0x70, 24, (PE_PARAMS_ADDR + 0x220) as u64);
    apc::w64(b, 0x80, (PE_PARAMS_ADDR + ENV_OFF) as u64)
}

fn put_params(b: &mut Vec<u8>)
    requires
        old(b)@.len() == 4096,
    ensures
        final(b)@ == with_params(old(b)@),
        final(b)@.len() == 4096,
{
    reveal(with_params);
    put64(b, 0x00, 0x1000);
    put64(b, 0x04, 0x1000);
    put64(b, 0x20, 0);
    put64(b, 0x28, 1);
    put64(b, 0x30, 2);
    put_unicode(b, 0x38, 6, PE_PARAMS_ADDR + 0x254);
    put_unicode(b, 0x60, 30, PE_PARAMS_ADDR + 0x200);
    put_unicode(b, 0x70, 24, PE_PARAMS_ADDR + 0x220);
    put64(b, 0x80, PE_PARAMS_ADDR + ENV_OFF);
}

/// What a loader entry says of its module.
pub struct LdrEntry {
    pub base: u64,
    pub entry: u64,
    pub size: u64,
    pub full_len: u16,
    pub full_va: u64,
    pub base_len: u16,
    pub base_va: u64,
}

/// The fields of an `LDR_DATA_TABLE_ENTRY` behind its three list links.
#[verifier::opaque]
pub open spec fn entry_at(b: Seq<u8>, off: int, e: LdrEntry) -> Seq<u8> {
    let b = apc::w64(b, off + 0x30, e.base);
    let b = apc::w64(b, off + 0x38, e.entry);
    let b = apc::w64(b, off + 0x40, (e.size % 0x1_0000_0000) as u64);
    let b = unicode_at(b, off + 0x48, e.full_len, e.full_va);
    unicode_at(b, off + 0x58, e.base_len, e.base_va)
}

fn put_entry(b: &mut Vec<u8>, off: usize, e: &LdrEntry)
    requires
        old(b)@.len() == 4096,
        off + 0x68 <= 4096,
        e.full_len < 0xFFFE,
        e.base_len < 0xFFFE,
    ensures
        final(b)@ == entry_at(old(b)@, off as int, *e),
        final(b)@.len() == old(b)@.len(),
{
    reveal(entry_at);
    put64(b, off + 0x30, e.base);
    put64(b, off + 0x38, e.entry);
    put64(b, off + 0x40, e.size % 0x1_0000_0000);
    put_unicode(b, off + 0x48, e.full_len, e.full_va);
    put_unicode(b, off + 0x58, e.base_len, e.base_va);
}

/// Node `p` of loader list `i`: the head, the program, kernel32, ntdll, then
/// each module that came from a file.
pub open spec fn ring_node(i: int, p: int) -> u64 {
    if p == 0 {
        (PE_PARAMS_ADDR + LDR_OFF + 0x10 + i * 0x10) as u64
    } else if p == 1 {
        (PE_PARAMS_ADDR + MOD_OFF + i * 0x10) as u64
    } else if p == 2 {
        (PE_PARAMS_ADDR + MOD2_OFF + i * 0x10) as u64
    } else if p == 3 {
        (PE_PARAMS_ADDR + MOD3_OFF + i * 0x10) as u64
    } else {
        (PE_LDRDATA_ADDR + (p - 4) * LDR_ENTRY_STRIDE + i * 0x10) as u64
    }
}

pub open spec fn ring_nodes(i: int, n_file: int) -> Seq<u64> {
    Seq::new((4 + n_file) as nat, |p: int| ring_node(i, p))
}

fn make_nodes(i: u64, n_file: usize) -> (r: Vec<u64>)
    requires
        i < 3,
        n_file <= 12,
    ensures
        r@ == ring_nodes(i as int, n_file as int),
{
    let mut r: Vec<u64> = vec![
        PE_PARAMS_ADDR + LDR_OFF + 0x10 + i * 0x10,
        PE_PARAMS_ADDR + MOD_OFF + i * 0x10,
        PE_PARAMS_ADDR + MOD2_OFF + i * 0x10,
        PE_PARAMS_ADDR + MOD3_OFF + i * 0x10,
    ];
    let mut k: usize = 0;
    while k < n_file
        invariant
            k <= n_file <= 12,
            i < 3,
            r@ =~= ring_nodes(i as int, k as int),
        decreases n_file - k,
    {
        r.push(PE_LDRDATA_ADDR + k as u64 * LDR_ENTRY_STRIDE + i * 0x10);
        k = k + 1;
    }
    r
}

/// The links `[p, n)` of a circular list, for the nodes that lie in the page
/// at `page_base`: the address of the next node, then of the one before.
pub open spec fn ring(b: Seq<u8>, page_base: int, nodes: Seq<u64>, p: int) -> Seq<u8>
    decreases nodes.len() - p,
{
    if p >= nodes.len() {
        b
    } else {
        let off = nodes[p] - page_base;
        let next = if p + 1 == nodes.len() {
            nodes[0]
        } else {
            nodes[p + 1]
        };
        let prev = if p == 0 {
            nodes[nodes.len() - 1]
        } else {
            nodes[p - 1]
        };
        let b = if 0 <= off < 4096 {
            apc::w64(apc::w64(b, off, next), off + 8, prev)
        } else {
            b
        };
        ring(b, page_base, nodes, p + 1)
    }
}

/// Write the links of the nodes that lie in this page.
pub fn link_ring(page: &mut Vec<u8>, page_base: u64, nodes: &[u64])
    requires
        old(page)@.len() == 4096,
        page_base <= 0xFFFF_FFFF_FFFF_F000,
        forall|p: int|
            0 <= p < nodes@.len() ==> !(page_base + 4080 < #[trigger] nodes@[p] < page_base + 4096),
    ensures
        final(page)@ == ring(old(page)@, page_base as int, nodes@, 0),
        final(page)@.len() == 4096,
{
    let n: usize = nodes.len();
    let mut p: usize = 0;
    while p < n
        invariant
            p <= n,
            n == nodes@.len(),
            page@.len() == 4096,
            page_base <= 0xFFFF_FFFF_FFFF_F000,
            forall|p: int|
                0 <= p < nodes@.len() ==> !(page_base + 4080 < #[trigger] nodes@[p] < page_base
                    + 4096),
            ring(old(page)@, page_base as int, nodes@, 0) == ring(
                page@,
                page_base as int,
                nodes@,
                p as int,
            ),
        decreases n - p,
    {
        let va: u64 = nodes[p];
        if va >= page_base && va - page_base < 4096 {
            let off: usize = (va - page_base) as usize;
            let next: u64 = if p + 1 == n { nodes[0] } else { nodes[p + 1] };
            let prev: u64 = if p == 0 { nodes[n - 1] } else { nodes[p - 1] };
            put64(page, off, next);
            put64(page, off + 8, prev);
        }
        p = p + 1;
    }
}

/// The three loader lists' links that lie in the page at `page_base`.
#[verifier::opaque]
pub open spec fn rings(b: Seq<u8>, page_base: int, n_file: int) -> Seq<u8> {
    let b = ring(b, page_base, ring_nodes(0, n_file), 0);
    let b = ring(b, page_base, ring_nodes(1, n_file), 0);
    ring(b, page_base, ring_nodes(2, n_file), 0)
}

fn link_rings(b: &mut Vec<u8>, page_base: u64, n_file: usize)
    requires
        old(b)@.len() == 4096,
        page_base == PE_PARAMS_ADDR || page_base == PE_LDRDATA_ADDR,
        n_file <= 12,
    ensures
        final(b)@ == rings(old(b)@, page_base as int, n_file as int),
        final(b)@.len() == 4096,
{
    reveal(rings);
    let n0 = make_nodes(0, n_file);
    link_ring(b, page_base, n0.as_slice());
    let n1 = make_nodes(1, n_file);
    link_ring(b, page_base, n1.as_slice());
    let n2 = make_nodes(2, n_file);
    link_ring(b, page_base, n2.as_slice());
}

pub open spec fn exe_entry(image_base: u64, entry: u64, size: u64) -> LdrEntry {
    LdrEntry {
        base: image_base,
        entry,
        size,
        full_len: 30,
        full_va: (PE_PARAMS_ADDR + 0x200) as u64,
        base_len: 24,
        base_va: (PE_PARAMS_ADDR + 0x23A) as u64,
    }
}

pub open spec fn kernel32_entry() -> LdrEntry {
    LdrEntry {
        base: PE_KERNEL32_ADDR,
        entry: 0,
        size: 0x1000,
        full_len: 64,
        full_va: (PE_PARAMS_ADDR + 0x25C) as u64,
        base_len: 24,
        base_va: (PE_PARAMS_ADDR + 0x29E) as u64,
    }
}

pub open spec fn ntdll_entry() -> LdrEntry {
    LdrEntry {
        base: PE_NTDLL_ADDR,
        entry: 0,
        size: 0x1000,
        full_len: 58,
        full_va: (PE_PARAMS_ADDR + 0x2B8) as u64,
        base_len: 18,
        base_va: (PE_PARAMS_ADDR + 0x2F4) as u64,
    }
}

/// `PE argv0 pe-hello.exe`, a newline, and a NUL.
pub open spec fn ansi_cmdline() -> Seq<u8> {
    seq![
        0x50u8, 0x45, 0x20, 0x61, 0x72, 0x67, 0x76, 0x30, 0x20, 0x70, 0x65, 0x2D, 0x68, 0x65, 0x6C, 0x6C, 0x6F, 0x2E, 0x65, 0x78, 0x65, 0x0A, 0x00]
}

/// The parameters page of a process whose program was loaded at `image_base`
/// beside `n_file` modules from files.
pub open spec fn params_page(image_base: u64, entry: u64, size: u64, n_file: int) -> Seq<u8> {
    let b = with_params(params_strings());
    let b = apc::w64(b, 0x100, 0x58);
    let b = bytes::splice(b, 0x104, seq![1u8]);
    let b = rings(b, PE_PARAMS_ADDR as int, n_file);
    let b = entry_at(b, 0x180, exe_entry(image_base, entry, size));
    let b = entry_at(b, 0x600, kernel32_entry());
    let b = entry_at(b, 0x700, ntdll_entry());
    bytes::splice(b, 0x400, ansi_cmdline())
}

/// Build the parameters page.
pub fn build_params(image_base: u64, entry: u64, size: u64, n_file: usize) -> (b: Vec<u8>)
    requires
        n_file <= 12,
    ensures
        b@ == params_page(image_base, entry, size, n_file as int),
        b@.len() == 4096,
{
    let mut b = build_params_strings();
    put_params(&mut b);
    put64(&mut b, 0x100, 0x58);
    let one: Vec<u8> = vec![1u8];
    assert(one@ =~= seq![1u8]);
    put(&mut b, 0x104, one.as_slice());
    link_rings(&mut b, PE_PARAMS_ADDR, n_file);
    put_entry(
        &mut b,
        0x180,
        &LdrEntry {
            base: image_base,
            entry,
            size,
            full_len: 30,
            full_va: PE_PARAMS_ADDR + 0x200,
            base_len: 24,
            base_va: PE_PARAMS_ADDR + 0x23A,
        },
    );
    put_entry(
        &mut b,
        0x600,
        &LdrEntry {
            base: PE_KERNEL32_ADDR,
            entry: 0,
            size: 0x1000,
            full_len: 64,
            full_va: PE_PARAMS_ADDR + 0x25C,
            base_len: 24,
            base_va: PE_PARAMS_ADDR + 0x29E,
        },
    );
    put_entry(
        &mut b,
        0x700,
        &LdrEntry {
            base: PE_NTDLL_ADDR,
            entry: 0,
            size: 0x1000,
            full_len: 58,
            full_va: PE_PARAMS_ADDR + 0x2B8,
            base_len: 18,
            base_va: PE_PARAMS_ADDR + 0x2F4,
        },
    );
    let cmd: Vec<u8> = vec![
        0x50u8, 0x45, 0x20, 0x61, 0x72, 0x67, 0x76, 0x30, 0x20, 0x70, 0x65, 0x2D, 0x68, 0x65, 0x6C, 0x6C, 0x6F, 0x2E, 0x65, 0x78, 0x65, 0x0A, 0x00];
    assert(cmd@ =~= ansi_cmdline());
    put(&mut b, 0x400, cmd.as_slice());
    b
}

/// A module from a file, as the loader lists hold it.
pub struct LdrFileMod {
    pub base: u64,
    pub entry: u64,
    pub size: u64,
    pub name: Vec<char>,
}

/// What a module from a file is.
pub struct FileMod {
    pub base: u64,
    pub entry: u64,
    pub size: u64,
    pub name: Seq<char>,
}

impl View for LdrFileMod {
    type V = FileMod;

    open spec fn view(&self) -> FileMod {
        FileMod { base: self.base, entry: self.entry, size: self.size, name: self.name@ }
    }
}

pub open spec fn file_mods(v: Seq<LdrFileMod>) -> Seq<FileMod> {
    v.map_values(|m: LdrFileMod| m@)
}

/// `C:\Windows\System32\` and a module's name.
pub open spec fn system_path(name: Seq<char>) -> Seq<char> {
    "C:\\Windows\\System32\\"@ + name
}

/// The strings of one module: where they end, or none where they do not fit.
pub open spec fn names_end(name: Seq<char>, cur: int) -> int {
    cur + text::wide(system_path(name)).len() + text::wide(name).len() + 4
}

/// The entries `[k, n)` with their names from `cur` on; none where the names
/// overflow the page.
pub open spec fn with_entries(b: Seq<u8>, mods: Seq<FileMod>, n: int, k: int, cur: int) -> Option<
    Seq<u8>,
>
    decreases n - k,
{
    if k >= n {
        Some(b)
    } else {
        let m = mods[k];
        let fl = text::wide(system_path(m.name)).len() as int;
        let bl = text::wide(m.name).len() as int;
        if names_end(m.name, cur) > 4096 {
            None
        } else {
            let b = wide_at(b, cur, system_path(m.name));
            let b = wide_at(b, cur + fl + 2, m.name);
            let b = entry_at(
                b,
                k * 0x80,
                LdrEntry {
                    base: m.base,
                    entry: m.entry,
                    size: m.size,
                    full_len: fl as u16,
                    full_va: (PE_LDRDATA_ADDR + cur) as u64,
                    base_len: bl as u16,
                    base_va: (PE_LDRDATA_ADDR + cur + fl + 2) as u64,
                },
            );
            with_entries(b, mods, n, k + 1, names_end(m.name, cur))
        }
    }
}

/// How many modules from files the loader lists hold.
pub open spec fn listed(n: nat) -> int {
    if n <= 12 {
        n as int
    } else {
        12
    }
}

/// The page of loader entries for the modules from files.
pub open spec fn ldr_page(mods: Seq<FileMod>) -> Option<Seq<u8>> {
    let n = listed(mods.len());
    match with_entries(bytes::zeros(4096), mods, n, 0, 0x800) {
        Some(b) => Some(rings(b, PE_LDRDATA_ADDR as int, n)),
        None => None,
    }
}

fn full_name(name: &[char]) -> (r: Vec<char>)
    ensures
        r@ == system_path(name@),
{
    let mut r = crate::text::chars_of("C:\\Windows\\System32\\");
    crate::text::extend_chars(&mut r, name);
    r
}

/// Build the page of loader entries; none where the names overflow it.
pub fn build_ldr(mods: &[LdrFileMod]) -> (r: Option<Vec<u8>>)
    ensures
        match ldr_page(file_mods(mods@)) {
            Some(p) => r is Some && r->0@ == p && r->0@.len() == 4096,
            None => r is None,
        },
{
    let len: usize = mods.len();
    let n: usize = if len <= 12 { len } else { 12 };
    let mut b = crate::bytes::zeroed(4096);
    let ghost b0 = b@;
    let mut cur: usize = 0x800;
    let mut k: usize = 0;
    while k < n
        invariant
            k <= n <= 12,
            n == listed(mods@.len()),
            n <= mods@.len(),
            b0 == bytes::zeros(4096),
            b@.len() == 4096,
            cur <= 4096,
            with_entries(b0, file_mods(mods@), n as int, 0, 0x800) == with_entries(
                b@,
                file_mods(mods@),
                n as int,
                k as int,
                cur as int,
            ),
        decreases n - k,
    {
        let name = mods[k].name.as_slice();
        assert(file_mods(mods@)[k as int] == mods@[k as int]@);
        let full = full_name(name);
        let fw = crate::text::to_wide(full.as_slice());
        let bw = crate::text::to_wide(name);
        let fl: usize = fw.len();
        let bl: usize = bw.len();
        if fl > 4096 || bl > 4096 || cur + fl + bl + 4 > 4096 {
            return None;
        }
        let _f = put_wide(&mut b, cur, full.as_slice());
        let _b = put_wide(&mut b, cur + fl + 2, name);
        put_entry(
            &mut b,
            k * 0x80,
            &LdrEntry {
                base: mods[k].base,
                entry: mods[k].entry,
                size: mods[k].size,
                full_len: fl as u16,
                full_va: PE_LDRDATA_ADDR + cur as u64,
                base_len: bl as u16,
                base_va: PE_LDRDATA_ADDR + cur as u64 + fl as u64 + 2,
            },
        );
        cur = cur + fl + bl + 4;
        k = k + 1;
    }
    link_rings(&mut b, PE_LDRDATA_ADDR, n);
    Some(b)
}

} // verus!
